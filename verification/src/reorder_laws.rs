use vstd::prelude::*;
use vstd::multiset::Multiset;
use crate::functionality::first_type_prefix;
use crate::reorder::{
    decimal, digit_char, dummy_key, group_of, group_step, grouped, index_of, lemma_index_of,
    line_functionality, move_source, move_target, moved, reordered_lines, rendered_from, Grouping,
};
use crate::text::is_blank;

verus! {

broadcast use vstd::seq_lib::lemma_multiset_commutative, vstd::multiset::group_multiset_axioms;

/// Different digits have different characters.
proof fn lemma_digit_char_injective(a: nat, b: nat)
    requires
        a < 10,
        b < 10,
        digit_char(a) == digit_char(b),
    ensures
        a == b,
{
}

/// The decimal notation of a number ends with its last digit, after the
/// notation of the number divided by ten; it has one digit exactly when the
/// number is below ten.
proof fn lemma_decimal_shape(n: nat)
    ensures
        decimal(n).len() >= 1,
        (n < 10) == (decimal(n).len() == 1),
        decimal(n).last() == digit_char(n % 10),
        n >= 10 ==> decimal(n).drop_last() == decimal(n / 10),
    decreases n,
{
    if n >= 10 {
        lemma_decimal_shape(n / 10);
        assert(decimal(n).drop_last() =~= decimal(n / 10));
    }
}

/// Different numbers have different decimal notations.
proof fn lemma_decimal_injective(n: nat, m: nat)
    requires
        decimal(n) == decimal(m),
    ensures
        n == m,
    decreases n,
{
    lemma_decimal_shape(n);
    lemma_decimal_shape(m);
    lemma_digit_char_injective(n % 10, m % 10);
    if n >= 10 && m >= 10 {
        lemma_decimal_injective(n / 10, m / 10);
    }
}

/// Different lines without a type prefix get different functionalities.
pub proof fn lemma_dummy_key_injective(n: nat, m: nat)
    requires
        dummy_key(n) == dummy_key(m),
    ensures
        n == m,
{
    let p = "DUMMY_"@;
    assert((p + decimal(n)).skip(p.len() as int) =~= decimal(n));
    assert((p + decimal(m)).skip(p.len() as int) =~= decimal(m));
    lemma_decimal_injective(n, m);
}

/// The lines of a list of groups, one group after another.
pub open spec fn concat_groups(gs: Seq<Seq<Seq<char>>>) -> Seq<Seq<char>>
    decreases gs.len(),
{
    if gs.len() == 0 {
        seq![]
    } else {
        gs[0] + concat_groups(gs.drop_first())
    }
}

/// The lines of two lists of groups are the lines of the first, then those
/// of the second.
proof fn lemma_concat_groups_add(x: Seq<Seq<Seq<char>>>, y: Seq<Seq<Seq<char>>>)
    ensures
        concat_groups(x + y) == concat_groups(x) + concat_groups(y),
    decreases x.len(),
{
    if x.len() == 0 {
        assert(x + y =~= y);
        assert(Seq::<Seq<char>>::empty() + concat_groups(y) =~= concat_groups(y));
    } else {
        assert((x + y).drop_first() =~= x.drop_first() + y);
        assert((x + y)[0] == x[0]);
        lemma_concat_groups_add(x.drop_first(), y);
        assert(x[0] + (concat_groups(x.drop_first()) + concat_groups(y)) =~= (x[0] + concat_groups(
            x.drop_first(),
        )) + concat_groups(y));
    }
}

/// Moving one group to another place keeps the lines, only their order
/// changes.
proof fn lemma_concat_groups_move(gs: Seq<Seq<Seq<char>>>, a: int, b: int)
    requires
        0 <= a < gs.len(),
        0 <= b < gs.len(),
    ensures
        concat_groups(gs.remove(a).insert(b, gs[a])).to_multiset() == concat_groups(gs).to_multiset(),
{
    let x = gs[a];
    let t = gs.remove(a);
    let front = gs.take(a);
    let back = gs.skip(a + 1);
    assert(gs =~= front + seq![x] + back);
    assert(t =~= front + back);
    assert(concat_groups(seq![x]) =~= x) by {
        assert(seq![x].drop_first() =~= Seq::<Seq<Seq<char>>>::empty());
        assert(concat_groups(Seq::<Seq<Seq<char>>>::empty()) == Seq::<Seq<char>>::empty());
        assert(x + Seq::<Seq<char>>::empty() =~= x);
    }
    lemma_concat_groups_add(front + seq![x], back);
    lemma_concat_groups_add(front, seq![x]);
    lemma_concat_groups_add(front, back);
    let u = t.insert(b, x);
    assert(u =~= t.take(b) + seq![x] + t.skip(b));
    assert(t =~= t.take(b) + t.skip(b));
    lemma_concat_groups_add(t.take(b) + seq![x], t.skip(b));
    lemma_concat_groups_add(t.take(b), seq![x]);
    lemma_concat_groups_add(t.take(b), t.skip(b));
    let cf = concat_groups(front);
    let cb = concat_groups(back);
    let c1 = concat_groups(t.take(b));
    let c2 = concat_groups(t.skip(b));
    assert(concat_groups(gs).to_multiset() =~= cf.to_multiset().add(x.to_multiset()).add(cb.to_multiset()));
    assert(concat_groups(t).to_multiset() =~= cf.to_multiset().add(cb.to_multiset()));
    assert(concat_groups(t).to_multiset() =~= c1.to_multiset().add(c2.to_multiset()));
    assert(concat_groups(u).to_multiset() =~= c1.to_multiset().add(x.to_multiset()).add(c2.to_multiset()));
    assert forall|v: Seq<char>| #[trigger] concat_groups(u).to_multiset().count(v) == concat_groups(
        gs,
    ).to_multiset().count(v) by {
        assert(concat_groups(t).to_multiset().count(v) == cf.to_multiset().count(v) + cb.to_multiset().count(v));
        assert(concat_groups(t).to_multiset().count(v) == c1.to_multiset().count(v) + c2.to_multiset().count(v));
    }
    assert(concat_groups(u).to_multiset() =~= concat_groups(gs).to_multiset());
}

/// The groups of the functionalities in `order`, in that order.
pub open spec fn ordered_groups(
    order: Seq<Seq<char>>,
    keys: Seq<Seq<char>>,
    members: Seq<Seq<Seq<char>>>,
) -> Seq<Seq<Seq<char>>> {
    order.map_values(|k: Seq<char>| group_of(keys, members, k))
}

/// The moves keep the lines of the groups in the order, only their order
/// changes.
proof fn lemma_moved_keeps_lines(
    order: Seq<Seq<char>>,
    keys: Seq<Seq<char>>,
    members: Seq<Seq<Seq<char>>>,
    n: int,
)
    ensures
        concat_groups(ordered_groups(moved(order, n), keys, members)).to_multiset() == concat_groups(
            ordered_groups(order, keys, members),
        ).to_multiset(),
    decreases n,
{
    if n > 0 {
        lemma_moved_keeps_lines(order, keys, members, n - 1);
        let s = moved(order, n - 1);
        crate::reorder::lemma_index_of(s, move_source(n - 1));
        crate::reorder::lemma_index_of(s, move_target(n - 1));
        if let (Some(a), Some(b)) = (
            crate::reorder::index_of(s, move_source(n - 1)),
            crate::reorder::index_of(s, move_target(n - 1)),
        ) {
            let t = if a > b { b + 1 } else { b };
            let gs = ordered_groups(s, keys, members);
            assert(moved(order, n) == s.remove(a).insert(t, s[a]));
            assert(ordered_groups(s.remove(a).insert(t, s[a]), keys, members) =~= gs.remove(a).insert(
                t,
                gs[a],
            ));
            lemma_concat_groups_move(gs, a, t);
        } else {
            assert(moved(order, n) == s);
        }
    }
}


/// The lines of `lines` that are not blank, in order.
pub open spec fn non_blank_lines(lines: Seq<Seq<char>>) -> Seq<Seq<char>>
    decreases lines.len(),
{
    if lines.len() == 0 {
        seq![]
    } else if is_blank(lines.last()) {
        non_blank_lines(lines.drop_last())
    } else {
        non_blank_lines(lines.drop_last()).push(lines.last())
    }
}

/// No line with a type prefix has a functionality named like the
/// functionality of a line without one.
pub open spec fn no_dummy_named_functionality(lines: Seq<Seq<char>>) -> bool {
    forall|i: int, n: nat|
        0 <= i < lines.len() && !is_blank(lines[i]) && first_type_prefix(lines[i]) is Some
            ==> line_functionality(#[trigger] lines[i]) != #[trigger] dummy_key(n)
}

/// A grouping whose order is its functionalities, each once, whose dummy
/// functionalities are those already given out, whose groups hold no blank
/// line, and whose groups together hold the lines `lines` (in some order).
pub open spec fn grouping_holds(g: Grouping, lines: Seq<Seq<char>>) -> bool {
    &&& g.order == g.keys
    &&& g.keys.len() == g.members.len()
    &&& forall|i: int, j: int| 0 <= i < j < g.keys.len() ==> #[trigger] g.keys[i] != #[trigger] g.keys[j]
    &&& forall|j: int, n: nat| 0 <= j < g.keys.len() && #[trigger] g.keys[j] == #[trigger] dummy_key(n) ==> n < g.dummies
    &&& forall|j: int, t: int|
        0 <= j < g.members.len() && 0 <= t < g.members[j].len() ==> !is_blank(#[trigger] g.members[j][t])
    &&& concat_groups(g.members).to_multiset() == lines.to_multiset()
}

/// The lines of a single group.
proof fn lemma_concat_groups_single(x: Seq<Seq<char>>)
    ensures
        concat_groups(seq![x]) == x,
{
    assert(seq![x].drop_first() =~= Seq::<Seq<Seq<char>>>::empty());
    assert(concat_groups(Seq::<Seq<Seq<char>>>::empty()) == Seq::<Seq<char>>::empty());
    assert(x + Seq::<Seq<char>>::empty() =~= x);
}

/// Adding a line to one group adds it to the lines of all groups.
proof fn lemma_concat_groups_update_push(ms: Seq<Seq<Seq<char>>>, j: int, l: Seq<char>)
    requires
        0 <= j < ms.len(),
    ensures
        concat_groups(ms.update(j, ms[j].push(l))).to_multiset() == concat_groups(ms).to_multiset().insert(l),
{
    let front = ms.take(j);
    let back = ms.skip(j + 1);
    assert(ms =~= front + seq![ms[j]] + back);
    assert(ms.update(j, ms[j].push(l)) =~= front + seq![ms[j].push(l)] + back);
    lemma_concat_groups_add(front + seq![ms[j]], back);
    lemma_concat_groups_add(front, seq![ms[j]]);
    lemma_concat_groups_add(front + seq![ms[j].push(l)], back);
    lemma_concat_groups_add(front, seq![ms[j].push(l)]);
    lemma_concat_groups_single(ms[j]);
    lemma_concat_groups_single(ms[j].push(l));
    assert(ms[j].push(l) =~= ms[j] + seq![l]);
    let cf = concat_groups(front);
    let cb = concat_groups(back);
    assert(seq![l].to_multiset() =~= Multiset::<Seq<char>>::empty().insert(l)) by {
        assert(seq![l] =~= Seq::<Seq<char>>::empty().push(l));
        vstd::seq_lib::to_multiset_build(Seq::<Seq<char>>::empty(), l);
        assert(Seq::<Seq<char>>::empty().to_multiset() =~= Multiset::<Seq<char>>::empty()) by {
            vstd::seq_lib::to_multiset_len(Seq::<Seq<char>>::empty());
        }
    }
    assert(concat_groups(ms.update(j, ms[j].push(l))).to_multiset() =~= concat_groups(
        ms,
    ).to_multiset().insert(l));
}

/// A new group at the end adds its lines after those of the others.
proof fn lemma_concat_groups_push(ms: Seq<Seq<Seq<char>>>, x: Seq<Seq<char>>)
    ensures
        concat_groups(ms.push(x)) == concat_groups(ms) + x,
{
    assert(ms.push(x) =~= ms + seq![x]);
    lemma_concat_groups_add(ms, seq![x]);
    lemma_concat_groups_single(x);
}

/// One more line keeps what `grouping_holds` says, with the line among the
/// lines held when it is not blank.
proof fn lemma_group_step_holds(g: Grouping, lines: Seq<Seq<char>>, l: Seq<char>)
    requires
        grouping_holds(g, lines),
        !is_blank(l) && first_type_prefix(l) is Some ==> forall|n: nat| line_functionality(l) != #[trigger] dummy_key(n),
    ensures
        grouping_holds(group_step(g, l), if is_blank(l) { lines } else { lines.push(l) }),
{
    if !is_blank(l) {
        let typed = first_type_prefix(l) is Some;
        let k = if typed { line_functionality(l) } else { dummy_key(g.dummies) };
        let g2 = group_step(g, l);
        lemma_index_of(g.keys, k);
        assert(lines.push(l).to_multiset() == lines.to_multiset().insert(l)) by {
            vstd::seq_lib::to_multiset_build(lines, l);
        }
        if !typed {
            if let Some(j) = index_of(g.keys, k) {
                assert(g.keys[j] == dummy_key(g.dummies));
                assert(false);
            }
        }
        match index_of(g.keys, k) {
            Some(j) => {
                lemma_concat_groups_update_push(g.members, j, l);
                assert forall|j2: int, t: int|
                    0 <= j2 < g2.members.len() && 0 <= t < g2.members[j2].len() implies !is_blank(
                    #[trigger] g2.members[j2][t],
                ) by {
                    if j2 == j && t == g.members[j].len() {
                        assert(g2.members[j2][t] == l);
                    } else if j2 == j {
                        assert(g2.members[j2][t] == g.members[j][t]);
                    }
                }
            },
            None => {
                lemma_concat_groups_push(g.members, seq![l]);
                lemma_concat_groups_single(seq![l]);
                assert(concat_groups(g.members) + seq![l] =~= concat_groups(g.members).push(l));
                vstd::seq_lib::to_multiset_build(concat_groups(g.members), l);
                assert forall|i: int, j: int| 0 <= i < j < g2.keys.len() implies #[trigger] g2.keys[i]
                    != #[trigger] g2.keys[j] by {
                    if j == g.keys.len() {
                        assert(g2.keys[j] == k);
                        assert(g2.keys[i] == g.keys[i]);
                    }
                }
                assert forall|j: int, n: nat| 0 <= j < g2.keys.len() && #[trigger] g2.keys[j]
                    == #[trigger] dummy_key(n) implies n < g2.dummies by {
                    if j == g.keys.len() {
                        if !typed {
                            lemma_dummy_key_injective(n, g.dummies);
                        }
                    } else {
                        assert(g2.keys[j] == g.keys[j]);
                    }
                }
                assert forall|j2: int, t: int|
                    0 <= j2 < g2.members.len() && 0 <= t < g2.members[j2].len() implies !is_blank(
                    #[trigger] g2.members[j2][t],
                ) by {
                    if j2 == g.members.len() {
                        assert(g2.members[j2] == seq![l]);
                    } else {
                        assert(g2.members[j2] == g.members[j2]);
                    }
                }
            },
        }
    }
}

/// The grouping of a file holds its non-blank lines, each functionality
/// once, when no functionality is named like that of a line without a
/// type prefix.
pub(crate) proof fn lemma_grouped_holds(lines: Seq<Seq<char>>)
    requires
        no_dummy_named_functionality(lines),
    ensures
        grouping_holds(grouped(lines), non_blank_lines(lines)),
    decreases lines.len(),
{
    if lines.len() == 0 {
        assert(concat_groups(Seq::<Seq<Seq<char>>>::empty()) == Seq::<Seq<char>>::empty());
    } else {
        let prev = lines.drop_last();
        let l = lines.last();
        assert forall|i: int, n: nat|
            0 <= i < prev.len() && !is_blank(prev[i]) && first_type_prefix(prev[i]) is Some
                implies line_functionality(#[trigger] prev[i]) != #[trigger] dummy_key(n) by {
            assert(prev[i] == lines[i]);
        }
        lemma_grouped_holds(prev);
        if !is_blank(l) && first_type_prefix(l) is Some {
            assert forall|n: nat| line_functionality(l) != #[trigger] dummy_key(n) by {
                assert(lines[lines.len() - 1] == l);
            }
        }
        lemma_group_step_holds(grouped(prev), non_blank_lines(prev), l);
    }
}


/// Dropping blank lines from two lists of lines drops them from each.
proof fn lemma_non_blank_add(a: Seq<Seq<char>>, b: Seq<Seq<char>>)
    ensures
        non_blank_lines(a + b) == non_blank_lines(a) + non_blank_lines(b),
    decreases b.len(),
{
    if b.len() == 0 {
        assert(a + b =~= a);
        assert(non_blank_lines(a) + Seq::<Seq<char>>::empty() =~= non_blank_lines(a));
    } else {
        lemma_non_blank_add(a, b.drop_last());
        assert((a + b).drop_last() =~= a + b.drop_last());
        assert((a + b).last() == b.last());
        if !is_blank(b.last()) {
            assert((non_blank_lines(a) + non_blank_lines(b.drop_last())).push(b.last()) =~= non_blank_lines(a)
                + non_blank_lines(b.drop_last()).push(b.last()));
        }
    }
}

/// Lines none of which is blank are all kept.
proof fn lemma_non_blank_all(lines: Seq<Seq<char>>)
    requires
        forall|t: int| 0 <= t < lines.len() ==> !is_blank(#[trigger] lines[t]),
    ensures
        non_blank_lines(lines) == lines,
    decreases lines.len(),
{
    if lines.len() > 0 {
        lemma_non_blank_all(lines.drop_last());
        assert(lines.drop_last().push(lines.last()) =~= lines);
    }
}

/// Empty lines are all dropped.
proof fn lemma_non_blank_empty_lines(n: nat)
    ensures
        non_blank_lines(Seq::new(n, |i: int| Seq::<char>::empty())) == Seq::<Seq<char>>::empty(),
    decreases n,
{
    let e = Seq::new(n, |i: int| Seq::<char>::empty());
    if n > 0 {
        assert(is_blank(Seq::<char>::empty()));
        assert(e.drop_last() =~= Seq::new((n - 1) as nat, |i: int| Seq::<char>::empty()));
        lemma_non_blank_empty_lines((n - 1) as nat);
    }
}

/// Without its blank lines, what is written for the groups in `order` from
/// index `idx` on is the lines of those groups, one group after another.
proof fn lemma_rendered_non_blank(
    order: Seq<Seq<char>>,
    keys: Seq<Seq<char>>,
    members: Seq<Seq<Seq<char>>>,
    idx: int,
)
    requires
        0 <= idx <= order.len(),
        keys.len() == members.len(),
        forall|j: int, t: int|
            0 <= j < members.len() && 0 <= t < members[j].len() ==> !is_blank(#[trigger] members[j][t]),
    ensures
        non_blank_lines(rendered_from(order, keys, members, idx)) == concat_groups(
            ordered_groups(order, keys, members).skip(idx),
        ),
    decreases order.len() - idx,
{
    let og = ordered_groups(order, keys, members);
    if idx == order.len() {
        assert(og.skip(idx) =~= Seq::<Seq<Seq<char>>>::empty());
        assert(concat_groups(Seq::<Seq<Seq<char>>>::empty()) == Seq::<Seq<char>>::empty());
    } else {
        lemma_rendered_non_blank(order, keys, members, idx + 1);
        let lines = group_of(keys, members, order[idx]);
        lemma_index_of(keys, order[idx]);
        lemma_non_blank_all(lines);
        let b1 = if crate::reorder::blank_line_after(lines, idx, order.len() as int) {
            seq![Seq::<char>::empty()]
        } else {
            Seq::<Seq<char>>::empty()
        };
        let b2 = if order[idx] == "CTI_datagen"@ {
            seq![Seq::<char>::empty(), Seq::<char>::empty()]
        } else {
            Seq::<Seq<char>>::empty()
        };
        let rest = rendered_from(order, keys, members, idx + 1);
        assert(rendered_from(order, keys, members, idx) == lines + b1 + b2 + rest);
        lemma_non_blank_empty_lines(b1.len());
        lemma_non_blank_empty_lines(b2.len());
        assert(b1 =~= Seq::new(b1.len(), |i: int| Seq::<char>::empty()));
        assert(b2 =~= Seq::new(b2.len(), |i: int| Seq::<char>::empty()));
        lemma_non_blank_add(lines + b1 + b2, rest);
        lemma_non_blank_add(lines + b1, b2);
        lemma_non_blank_add(lines, b1);
        assert(og.skip(idx)[0] == lines);
        assert(og.skip(idx).drop_first() =~= og.skip(idx + 1));
        assert(lines + Seq::<Seq<char>>::empty() + Seq::<Seq<char>>::empty() =~= lines);
    }
}

/// With each functionality once in the order, the groups in that order are
/// the groups as they are held.
proof fn lemma_ordered_groups_of_keys(keys: Seq<Seq<char>>, members: Seq<Seq<Seq<char>>>)
    requires
        keys.len() == members.len(),
        forall|i: int, j: int| 0 <= i < j < keys.len() ==> #[trigger] keys[i] != #[trigger] keys[j],
    ensures
        ordered_groups(keys, keys, members) == members,
{
    assert forall|i: int| 0 <= i < keys.len() implies #[trigger] ordered_groups(keys, keys, members)[i]
        == members[i] by {
        lemma_index_of(keys, keys[i]);
        if let Some(j) = index_of(keys, keys[i]) {
            if j < i {
                assert(keys[j] != keys[i]);
            }
            if j > i {
                assert(keys[i] != keys[j]);
            }
        }
    }
    assert(ordered_groups(keys, keys, members) =~= members);
}

/// Reordering keeps every non-blank line, and adds only empty lines: the
/// non-blank lines written are those of the file, in some order (when no
/// functionality is named like that of a line without a type prefix).
pub proof fn lemma_reordered_permutation(lines: Seq<Seq<char>>)
    requires
        no_dummy_named_functionality(lines),
    ensures
        non_blank_lines(reordered_lines(lines)).to_multiset() == non_blank_lines(lines).to_multiset(),
{
    let g = grouped(lines);
    lemma_grouped_holds(lines);
    let o = moved(g.order, 22);
    lemma_rendered_non_blank(o, g.keys, g.members, 0);
    assert(ordered_groups(o, g.keys, g.members).skip(0) =~= ordered_groups(o, g.keys, g.members));
    lemma_moved_keeps_lines(g.order, g.keys, g.members, 22);
    lemma_ordered_groups_of_keys(g.keys, g.members);
}

} // verus!
