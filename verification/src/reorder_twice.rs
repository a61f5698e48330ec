use vstd::prelude::*;
use crate::functionality::first_type_prefix;
use crate::move_laws::{distinct_names, lemma_first_run, lemma_index_of_distinct, lemma_moved_twice};
use crate::reorder::{
    add_to_group, all_well_formed, dummy_key, group_of, group_step, grouped, grouping, index_of, lemma_index_of,
    line_functionality, move_after, move_source, moved, put_alone, reordered_lines, rendered_from,
    Grouping,
};
use crate::reorder_laws::{
    grouping_holds, lemma_grouped_holds, lemma_reordered_permutation, no_dummy_named_functionality,
    non_blank_lines, ordered_groups,
};
use crate::text::is_blank;

verus! {

broadcast use vstd::seq_lib::group_filter_ensures;

/// The functionality given to a line without a type prefix.
pub open spec fn is_dummy_key(k: Seq<char>) -> bool {
    exists|n: nat| k == #[trigger] dummy_key(n)
}

/// The functionalities of lines without a type prefix, in their order.
pub open spec fn dummy_keys_of(s: Seq<Seq<char>>) -> Seq<Seq<char>> {
    s.filter(|k: Seq<char>| is_dummy_key(k))
}

/// The functionalities of the first `n` lines without a type prefix.
pub open spec fn first_dummy_keys(n: nat) -> Seq<Seq<char>> {
    Seq::new(n, |m: int| dummy_key(m as nat))
}

/// A group as the grouping makes it: not empty, no blank line in it, and
/// either the one line without a type prefix that has the functionality
/// `k`, or lines with a type prefix whose functionality is `k`.
pub open spec fn group_shaped(k: Seq<char>, lines: Seq<Seq<char>>) -> bool {
    &&& lines.len() >= 1
    &&& forall|t: int| 0 <= t < lines.len() ==> !is_blank(#[trigger] lines[t])
    &&& if is_dummy_key(k) {
        lines.len() == 1 && first_type_prefix(lines[0]) is None
    } else {
        forall|t: int|
            0 <= t < lines.len() ==> first_type_prefix(#[trigger] lines[t]) is Some && line_functionality(
                lines[t],
            ) == k
    }
}

/// Every group is shaped as the grouping makes it, and the functionalities
/// of lines without a type prefix come in the order in which they were
/// given out.
pub open spec fn groups_shaped(g: Grouping) -> bool {
    &&& forall|j: int| 0 <= j < g.keys.len() ==> group_shaped(#[trigger] g.keys[j], g.members[j])
    &&& dummy_keys_of(g.order) == first_dummy_keys(g.dummies)
}

/// The grouping `g` continued with `lines`, read in order.
pub open spec fn regrouped(g: Grouping, lines: Seq<Seq<char>>) -> Grouping
    decreases lines.len(),
{
    if lines.len() == 0 {
        g
    } else {
        regrouped(group_step(g, lines[0]), lines.drop_first())
    }
}

/// Continuing with one more line is one more step.
proof fn lemma_regrouped_push(g: Grouping, lines: Seq<Seq<char>>, l: Seq<char>)
    ensures
        regrouped(g, lines.push(l)) == group_step(regrouped(g, lines), l),
    decreases lines.len(),
{
    if lines.len() == 0 {
        assert(lines.push(l).drop_first() =~= Seq::<Seq<char>>::empty());
        assert(lines.push(l)[0] == l);
        assert(regrouped(group_step(g, l), Seq::<Seq<char>>::empty()) == group_step(g, l));
    } else {
        assert(lines.push(l).drop_first() =~= lines.drop_first().push(l));
        assert(lines.push(l)[0] == lines[0]);
        lemma_regrouped_push(group_step(g, lines[0]), lines.drop_first(), l);
    }
}

/// Grouping lines is continuing the empty grouping with them.
proof fn lemma_grouped_is_regrouped(lines: Seq<Seq<char>>)
    ensures
        grouped(lines) == regrouped(grouping(seq![], seq![], seq![], 0), lines),
    decreases lines.len(),
{
    if lines.len() > 0 {
        lemma_grouped_is_regrouped(lines.drop_last());
        lemma_regrouped_push(grouping(seq![], seq![], seq![], 0), lines.drop_last(), lines.last());
        assert(lines.drop_last().push(lines.last()) =~= lines);
    }
}

/// Continuing with two lists of lines is continuing with one, then the other.
proof fn lemma_regrouped_add(g: Grouping, x: Seq<Seq<char>>, y: Seq<Seq<char>>)
    ensures
        regrouped(g, x + y) == regrouped(regrouped(g, x), y),
    decreases x.len(),
{
    if x.len() == 0 {
        assert(x + y =~= y);
    } else {
        assert((x + y).drop_first() =~= x.drop_first() + y);
        assert((x + y)[0] == x[0]);
        lemma_regrouped_add(group_step(g, x[0]), x.drop_first(), y);
    }
}

/// Blank lines leave a grouping as it is.
proof fn lemma_regrouped_blank(g: Grouping, lines: Seq<Seq<char>>)
    requires
        forall|t: int| 0 <= t < lines.len() ==> is_blank(#[trigger] lines[t]),
    ensures
        regrouped(g, lines) == g,
    decreases lines.len(),
{
    if lines.len() > 0 {
        assert(is_blank(lines[0]));
        assert forall|t: int| 0 <= t < lines.drop_first().len() implies is_blank(
            #[trigger] lines.drop_first()[t],
        ) by {
            assert(lines.drop_first()[t] == lines[t + 1]);
        }
        lemma_regrouped_blank(g, lines.drop_first());
    }
}

/// The functionalities of lines without a type prefix in a list with one
/// more functionality at its end.
proof fn lemma_dummy_keys_push(s: Seq<Seq<char>>, k: Seq<char>)
    ensures
        dummy_keys_of(s.push(k)) == if is_dummy_key(k) {
            dummy_keys_of(s).push(k)
        } else {
            dummy_keys_of(s)
        },
{
    s.lemma_filter_push(k, |k: Seq<char>| is_dummy_key(k));
}

/// A functionality not in a list is found at the end of the list with it
/// added.
proof fn lemma_index_of_pushed(s: Seq<Seq<char>>, k: Seq<char>)
    requires
        !s.contains(k),
    ensures
        index_of(s.push(k), k) == Some(s.len() as int),
{
    lemma_index_of(s.push(k), k);
    lemma_index_of(s, k);
    if let Some(j) = index_of(s.push(k), k) {
        if j < s.len() {
            assert(s[j] == k);
        }
    } else {
        assert(s.push(k)[s.len() as int] == k);
    }
}

/// One more line keeps the groups shaped.
proof fn lemma_group_step_shaped(g: Grouping, lines: Seq<Seq<char>>, l: Seq<char>)
    requires
        grouping_holds(g, lines),
        groups_shaped(g),
        !is_blank(l) && first_type_prefix(l) is Some ==> forall|n: nat| line_functionality(l) != #[trigger] dummy_key(n),
    ensures
        groups_shaped(group_step(g, l)),
{
    if !is_blank(l) {
        let g2 = group_step(g, l);
        if first_type_prefix(l) is Some {
            let k = line_functionality(l);
            assert(!is_dummy_key(k));
            lemma_index_of(g.keys, k);
            lemma_dummy_keys_push(g.order, k);
            match index_of(g.keys, k) {
                Some(j) => {
                    assert forall|i: int| 0 <= i < g2.keys.len() implies group_shaped(
                        #[trigger] g2.keys[i],
                        g2.members[i],
                    ) by {
                        if i == j {
                            assert(group_shaped(g.keys[j], g.members[j]));
                            let m = g.members[j].push(l);
                            assert(g2.members[i] == m);
                            assert forall|t: int| 0 <= t < m.len() implies !is_blank(#[trigger] m[t]) by {
                                if t < g.members[j].len() {
                                    assert(m[t] == g.members[j][t]);
                                }
                            }
                            assert forall|t: int| 0 <= t < m.len() implies first_type_prefix(#[trigger] m[t]) is Some
                                && line_functionality(m[t]) == k by {
                                if t < g.members[j].len() {
                                    assert(m[t] == g.members[j][t]);
                                }
                            }
                        } else {
                            assert(group_shaped(g.keys[i], g.members[i]));
                        }
                    }
                },
                None => {
                    assert forall|i: int| 0 <= i < g2.keys.len() implies group_shaped(
                        #[trigger] g2.keys[i],
                        g2.members[i],
                    ) by {
                        if i < g.keys.len() {
                            assert(group_shaped(g.keys[i], g.members[i]));
                        } else {
                            assert(g2.keys[i] == k);
                            assert(g2.members[i] == seq![l]);
                        }
                    }
                },
            }
        } else {
            let k = dummy_key(g.dummies);
            assert(is_dummy_key(k));
            lemma_index_of(g.keys, k);
            if let Some(j) = index_of(g.keys, k) {
                assert(g.keys[j] == dummy_key(g.dummies));
                assert(false);
            }
            lemma_dummy_keys_push(g.order, k);
            assert(first_dummy_keys(g.dummies).push(k) =~= first_dummy_keys(g.dummies + 1));
            assert forall|i: int| 0 <= i < g2.keys.len() implies group_shaped(
                #[trigger] g2.keys[i],
                g2.members[i],
            ) by {
                if i < g.keys.len() {
                    assert(group_shaped(g.keys[i], g.members[i]));
                } else {
                    assert(g2.keys[i] == k);
                    assert(g2.members[i] == seq![l]);
                }
            }
        }
    }
}

/// The groups of a file are shaped as the grouping makes them, when no
/// functionality is named like that of a line without a type prefix.
proof fn lemma_grouped_shaped(lines: Seq<Seq<char>>)
    requires
        no_dummy_named_functionality(lines),
    ensures
        groups_shaped(grouped(lines)),
    decreases lines.len(),
{
    if lines.len() == 0 {
        assert(dummy_keys_of(Seq::<Seq<char>>::empty()) =~= Seq::<Seq<char>>::empty());
        assert(first_dummy_keys(0) =~= Seq::<Seq<char>>::empty());
    } else {
        let prev = lines.drop_last();
        let l = lines.last();
        assert forall|i: int, n: nat|
            0 <= i < prev.len() && !is_blank(prev[i]) && first_type_prefix(prev[i]) is Some
                implies line_functionality(#[trigger] prev[i]) != #[trigger] dummy_key(n) by {
            assert(prev[i] == lines[i]);
        }
        lemma_grouped_shaped(prev);
        lemma_grouped_holds(prev);
        if !is_blank(l) && first_type_prefix(l) is Some {
            assert forall|n: nat| line_functionality(l) != #[trigger] dummy_key(n) by {
                assert(lines[lines.len() - 1] == l);
            }
        }
        lemma_group_step_shaped(grouped(prev), crate::reorder_laws::non_blank_lines(prev), l);
    }
}


/// The functionality of a line without a type prefix starts with `D`.
proof fn lemma_dummy_key_starts(n: nat)
    ensures
        dummy_key(n).len() > 0,
        dummy_key(n)[0] == 'D',
{
    reveal_strlit("DUMMY_");
    assert(dummy_key(n)[0] == "DUMMY_"@[0]);
}

/// No moved functionality is that of a line without a type prefix.
proof fn lemma_sources_not_dummy()
    ensures
        forall|i: int| 0 <= i < 22 ==> !is_dummy_key(#[trigger] move_source(i)),
{
    reveal_strlit("cable");
    reveal_strlit("cables");
    reveal_strlit("transformer");
    reveal_strlit("configurable_transformer");
    reveal_strlit("transformers");
    reveal_strlit("furnace_mode_upgrades");
    reveal_strlit("circuits");
    reveal_strlit("solar_cells");
    reveal_strlit("machine_frames");
    reveal_strlit("powered_furnaces");
    reveal_strlit("auto_crafters");
    reveal_strlit("crushers");
    reveal_strlit("pulverizers");
    reveal_strlit("fluid_pumps");
    reveal_strlit("fluid_pipes");
    reveal_strlit("item_silos");
    reveal_strlit("charger_uncharger");
    reveal_strlit("minecart_charger_uncharger");
    reveal_strlit("fluid_filler_fluid_drainer");
    reveal_strlit("battery_box_minecarts");
    reveal_strlit("auto_crafter_tooltip");
    reveal_strlit("chargers");
    assert forall|i: int| 0 <= i < 22 implies !is_dummy_key(#[trigger] move_source(i)) by {
        assert(move_source(i).len() > 0 && move_source(i)[0] != 'D');
        if is_dummy_key(move_source(i)) {
            let n = choose|n: nat| move_source(i) == #[trigger] dummy_key(n);
            lemma_dummy_key_starts(n);
        }
    }
}

/// Moving a functionality that is not that of a line without a type prefix
/// keeps those functionalities in their order.
proof fn lemma_move_keeps_dummy_keys(s: Seq<Seq<char>>, x: Seq<char>, t: Seq<char>)
    requires
        !is_dummy_key(x),
    ensures
        dummy_keys_of(move_after(s, x, t)) == dummy_keys_of(s),
{
    broadcast use Seq::filter_distributes_over_add;

    lemma_index_of(s, x);
    lemma_index_of(s, t);
    if let (Some(a), Some(b)) = (index_of(s, x), index_of(s, t)) {
        let tt = if a > b { b + 1 } else { b };
        let rem = s.remove(a);
        let p = |k: Seq<char>| is_dummy_key(k);
        let one = seq![x];
        assert(one =~= Seq::<Seq<char>>::empty().push(x));
        Seq::<Seq<char>>::empty().lemma_filter_push(x, p);
        assert(Seq::<Seq<char>>::empty().filter(p).len() == 0);
        assert(one.filter(p) =~= Seq::<Seq<char>>::empty());
        assert(s =~= s.take(a) + one + s.skip(a + 1));
        assert(rem =~= s.take(a) + s.skip(a + 1));
        let r = rem.insert(tt, x);
        assert(move_after(s, x, t) == r);
        assert(r =~= rem.take(tt) + one + rem.skip(tt));
        assert(rem =~= rem.take(tt) + rem.skip(tt));
        assert((s.take(a) + one + s.skip(a + 1)).filter(p) == (s.take(a) + one).filter(p) + s.skip(a + 1).filter(p));
        assert((s.take(a) + one).filter(p) == s.take(a).filter(p) + one.filter(p));
        assert((rem.take(tt) + one + rem.skip(tt)).filter(p) == (rem.take(tt) + one).filter(p) + rem.skip(tt).filter(p));
        assert((rem.take(tt) + one).filter(p) == rem.take(tt).filter(p) + one.filter(p));
        assert((rem.take(tt) + rem.skip(tt)).filter(p) == rem.take(tt).filter(p) + rem.skip(tt).filter(p));
        assert((s.take(a) + s.skip(a + 1)).filter(p) == s.take(a).filter(p) + s.skip(a + 1).filter(p));
        assert(r.filter(p) =~= rem.filter(p));
        assert(rem.filter(p) =~= s.filter(p));
    }
}

/// The moves keep the functionalities of lines without a type prefix in
/// their order.
proof fn lemma_moved_keeps_dummy_keys(o: Seq<Seq<char>>, k: int)
    requires
        0 <= k <= 22,
    ensures
        dummy_keys_of(moved(o, k)) == dummy_keys_of(o),
    decreases k,
{
    if k > 0 {
        lemma_moved_keeps_dummy_keys(o, k - 1);
        lemma_sources_not_dummy();
        lemma_move_keeps_dummy_keys(moved(o, k - 1), move_source(k - 1), crate::reorder::move_target(k - 1));
    }
}

/// Continuing a grouping, which holds the functionalities `p` with the
/// groups `gs`, with the lines of a group of a new functionality `k` adds
/// that group at the end.
proof fn lemma_regroup_group(
    p: Seq<Seq<char>>,
    gs: Seq<Seq<Seq<char>>>,
    c: nat,
    k: Seq<char>,
    lines: Seq<Seq<char>>,
)
    requires
        !p.contains(k),
        p.len() == gs.len(),
        group_shaped(k, lines),
        is_dummy_key(k) ==> k == dummy_key(c),
    ensures
        regrouped(grouping(p, p, gs, c), lines) == grouping(
            p.push(k),
            p.push(k),
            gs.push(lines),
            if is_dummy_key(k) { c + 1 } else { c },
        ),
{
    let g = grouping(p, p, gs, c);
    lemma_index_of(p, k);
    if let Some(j) = index_of(p, k) {
        assert(p[j] == k);
    }
    if is_dummy_key(k) {
        let l = lines[0];
        assert(lines =~= seq![l]);
        assert(lines.drop_first() =~= Seq::<Seq<char>>::empty());
        assert(!is_blank(lines[0]));
        assert(regrouped(g, lines) == regrouped(group_step(g, l), Seq::<Seq<char>>::empty()));
        assert(group_step(g, l) == put_alone(g, l));
    } else {
        lemma_regroup_typed_group(p, gs, c, k, lines, lines.len() as int);
        assert(lines.take(lines.len() as int) =~= lines);
    }
}

/// The first `m` lines of the group of a new functionality `k` with a type
/// prefix make a new group at the end.
proof fn lemma_regroup_typed_group(
    p: Seq<Seq<char>>,
    gs: Seq<Seq<Seq<char>>>,
    c: nat,
    k: Seq<char>,
    lines: Seq<Seq<char>>,
    m: int,
)
    requires
        !p.contains(k),
        p.len() == gs.len(),
        group_shaped(k, lines),
        !is_dummy_key(k),
        1 <= m <= lines.len(),
    ensures
        regrouped(grouping(p, p, gs, c), lines.take(m)) == grouping(p.push(k), p.push(k), gs.push(lines.take(m)), c),
    decreases m,
{
    let g = grouping(p, p, gs, c);
    let l = lines[m - 1];
    assert(!is_blank(l));
    assert(first_type_prefix(l) is Some && line_functionality(l) == k);
    assert(lines.take(m) =~= lines.take(m - 1).push(l));
    lemma_regrouped_push(g, lines.take(m - 1), l);
    if m == 1 {
        assert(lines.take(0) =~= Seq::<Seq<char>>::empty());
        lemma_index_of(p, k);
        if let Some(j) = index_of(p, k) {
            assert(p[j] == k);
        }
        assert(group_step(g, l) == add_to_group(g, k, l));
        assert(seq![l] =~= lines.take(1));
    } else {
        lemma_regroup_typed_group(p, gs, c, k, lines, m - 1);
        let g1 = grouping(p.push(k), p.push(k), gs.push(lines.take(m - 1)), c);
        lemma_index_of_pushed(p, k);
        assert(group_step(g1, l) == add_to_group(g1, k, l));
        assert(gs.push(lines.take(m - 1)).update(p.len() as int, lines.take(m - 1).push(l)) =~= gs.push(
            lines.take(m),
        ));
    }
}


/// The functionalities of lines without a type prefix in the first `j`
/// functionalities of an order whose such functionalities came in the order
/// in which they were given out came in that order too.
proof fn lemma_dummy_keys_prefix(m: Seq<Seq<char>>, d: nat, j: int)
    requires
        dummy_keys_of(m) == first_dummy_keys(d),
        0 <= j <= m.len(),
    ensures
        dummy_keys_of(m.take(j)) == first_dummy_keys(dummy_keys_of(m.take(j)).len()),
{
    broadcast use Seq::filter_distributes_over_add;

    let p = |k: Seq<char>| is_dummy_key(k);
    assert(m =~= m.take(j) + m.skip(j));
    assert((m.take(j) + m.skip(j)).filter(p) == m.take(j).filter(p) + m.skip(j).filter(p));
    let f = dummy_keys_of(m.take(j));
    assert forall|i: int| 0 <= i < f.len() implies f[i] == first_dummy_keys(f.len())[i] by {
        assert(f[i] == first_dummy_keys(d)[i]);
    }
    assert(f =~= first_dummy_keys(f.len()));
}

/// The grouping of what is written for the groups in the order `m` up to
/// index `idx`.
pub open spec fn regrouping_at(
    m: Seq<Seq<char>>,
    keys: Seq<Seq<char>>,
    members: Seq<Seq<Seq<char>>>,
    idx: int,
) -> Grouping {
    grouping(
        m.take(idx),
        m.take(idx),
        ordered_groups(m, keys, members).take(idx),
        dummy_keys_of(m.take(idx)).len(),
    )
}

/// Grouping again what is written for the groups in the order `m`, from
/// index `idx` on, gives back the order and its groups.
proof fn lemma_regroup_rendered(
    m: Seq<Seq<char>>,
    keys: Seq<Seq<char>>,
    members: Seq<Seq<Seq<char>>>,
    d: nat,
    idx: int,
)
    requires
        distinct_names(m),
        forall|i: int| 0 <= i < m.len() ==> group_shaped(#[trigger] m[i], group_of(keys, members, m[i])),
        dummy_keys_of(m) == first_dummy_keys(d),
        0 <= idx <= m.len(),
    ensures
        regrouped(regrouping_at(m, keys, members, idx), rendered_from(m, keys, members, idx))
            == regrouping_at(m, keys, members, m.len() as int),
    decreases m.len() - idx,
{
    let og = ordered_groups(m, keys, members);
    if idx == m.len() {
        assert(rendered_from(m, keys, members, idx) == Seq::<Seq<char>>::empty());
    } else {
        lemma_regroup_rendered(m, keys, members, d, idx + 1);
        let k = m[idx];
        let lines = group_of(keys, members, k);
        assert(og[idx] == lines);
        let pre = m.take(idx);
        let c = dummy_keys_of(pre).len();
        assert(!pre.contains(k)) by {
            if pre.contains(k) {
                let i = choose|i: int| 0 <= i < pre.len() && pre[i] == k;
                assert(m[i] == m[idx]);
            }
        }
        assert(m.take(idx + 1) =~= pre.push(k));
        assert(og.take(idx + 1) =~= og.take(idx).push(lines));
        lemma_dummy_keys_push(pre, k);
        lemma_dummy_keys_prefix(m, d, idx);
        lemma_dummy_keys_prefix(m, d, idx + 1);
        if is_dummy_key(k) {
            assert(dummy_keys_of(m.take(idx + 1)) == first_dummy_keys(c + 1));
            assert(first_dummy_keys(c + 1)[c as int] == dummy_key(c));
            assert(dummy_keys_of(pre).push(k)[c as int] == k);
        }
        assert(group_shaped(k, lines));
        lemma_regroup_group(pre, og.take(idx), c, k, lines);
        assert(regrouped(regrouping_at(m, keys, members, idx), lines) == regrouping_at(m, keys, members, idx + 1));
        let b1 = if crate::reorder::blank_line_after(lines, idx, m.len() as int) {
            seq![Seq::<char>::empty()]
        } else {
            Seq::<Seq<char>>::empty()
        };
        let b2 = if k == "CTI_datagen"@ {
            seq![Seq::<char>::empty(), Seq::<char>::empty()]
        } else {
            Seq::<Seq<char>>::empty()
        };
        let rest = rendered_from(m, keys, members, idx + 1);
        assert(rendered_from(m, keys, members, idx) == lines + b1 + b2 + rest);
        assert(is_blank(Seq::<char>::empty()));
        let gi = regrouping_at(m, keys, members, idx);
        let gn = regrouping_at(m, keys, members, idx + 1);
        lemma_regrouped_add(gi, lines + b1 + b2, rest);
        lemma_regrouped_add(gi, lines + b1, b2);
        lemma_regrouped_add(gi, lines, b1);
        lemma_regrouped_blank(gn, b1);
        lemma_regrouped_blank(gn, b2);
    }
}

/// The groups of `keys` and `members` in the order `m` are the groups of
/// `k2` and `m2` there too: then what is written for them is the same.
proof fn lemma_rendered_same_groups(
    m: Seq<Seq<char>>,
    keys: Seq<Seq<char>>,
    members: Seq<Seq<Seq<char>>>,
    k2: Seq<Seq<char>>,
    m2: Seq<Seq<Seq<char>>>,
    idx: int,
)
    requires
        forall|i: int| 0 <= i < m.len() ==> group_of(keys, members, #[trigger] m[i]) == group_of(k2, m2, m[i]),
    ensures
        rendered_from(m, keys, members, idx) == rendered_from(m, k2, m2, idx),
    decreases m.len() - idx,
{
    if 0 <= idx < m.len() {
        lemma_rendered_same_groups(m, keys, members, k2, m2, idx + 1);
        assert(group_of(keys, members, m[idx]) == group_of(k2, m2, m[idx]));
    }
}

/// The non-blank lines of a file are the lines in it that are not blank.
proof fn lemma_non_blank_contains(x: Seq<Seq<char>>, l: Seq<char>)
    ensures
        non_blank_lines(x).contains(l) <==> x.contains(l) && !is_blank(l),
    decreases x.len(),
{
    if x.len() > 0 {
        lemma_non_blank_contains(x.drop_last(), l);
        let p = x.drop_last();
        assert(x =~= p.push(x.last()));
        if x.contains(l) && !is_blank(l) {
            let i = choose|i: int| 0 <= i < x.len() && x[i] == l;
            if i < p.len() {
                assert(p[i] == l);
            }
        }
        if p.contains(l) {
            let i = choose|i: int| 0 <= i < p.len() && p[i] == l;
            assert(x[i] == l);
        }
        if non_blank_lines(x).contains(l) && !is_blank(x.last()) {
            let i = choose|i: int| 0 <= i < non_blank_lines(x).len() && non_blank_lines(x)[i] == l;
            if i < non_blank_lines(p).len() {
                assert(non_blank_lines(p)[i] == l);
            } else {
                assert(x[x.len() - 1] == l);
            }
        }
        if !is_blank(x.last()) && p.contains(l) && !is_blank(l) {
            let i = choose|i: int| 0 <= i < non_blank_lines(p).len() && non_blank_lines(p)[i] == l;
            assert(non_blank_lines(x)[i] == l);
        }
        if !is_blank(x.last()) {
            assert(non_blank_lines(x)[non_blank_lines(p).len() as int] == x.last());
        }
    }
}

/// Reordering a reordered file changes nothing, when no functionality is
/// named like that of a line without a type prefix; and a reordered file
/// can be reordered again when the file could.
pub proof fn lemma_reordered_twice(lines: Seq<Seq<char>>)
    requires
        no_dummy_named_functionality(lines),
    ensures
        reordered_lines(reordered_lines(lines)) == reordered_lines(lines),
        all_well_formed(lines) ==> all_well_formed(reordered_lines(lines)),
{
    if all_well_formed(lines) {
        let out = reordered_lines(lines);
        lemma_reordered_permutation(lines);
        assert forall|i: int| 0 <= i < out.len() implies crate::functionality::well_formed_line(#[trigger] out[i]) by {
            if !is_blank(out[i]) {
                assert(out.contains(out[i]));
                lemma_non_blank_contains(out, out[i]);
                vstd::seq_lib::to_multiset_contains(non_blank_lines(out), out[i]);
                vstd::seq_lib::to_multiset_contains(non_blank_lines(lines), out[i]);
                lemma_non_blank_contains(lines, out[i]);
                let j = choose|j: int| 0 <= j < lines.len() && lines[j] == out[i];
                assert(crate::functionality::well_formed_line(lines[j]));
            }
        }
    }
    let g = grouped(lines);
    lemma_grouped_holds(lines);
    lemma_grouped_shaped(lines);
    let o = g.order;
    assert(distinct_names(o)) by {
        assert forall|i: int, j: int| 0 <= i < o.len() && 0 <= j < o.len() && i != j implies o[i] != o[j] by {
            if i < j {
                assert(g.keys[i] != g.keys[j]);
            } else {
                assert(g.keys[j] != g.keys[i]);
            }
        }
    }
    lemma_first_run(o, 22);
    let m = moved(o, 22);
    lemma_moved_keeps_dummy_keys(o, 22);
    assert forall|i: int| 0 <= i < m.len() implies group_shaped(#[trigger] m[i], group_of(g.keys, g.members, m[i])) by {
        assert(m.contains(m[i]));
        assert(o.contains(m[i]));
        let j = choose|j: int| 0 <= j < o.len() && o[j] == m[i];
        lemma_index_of_distinct(o, j);
        assert(group_shaped(g.keys[j], g.members[j]));
    }
    let og = ordered_groups(m, g.keys, g.members);
    let out = reordered_lines(lines);
    assert(out == rendered_from(m, g.keys, g.members, 0));
    lemma_regroup_rendered(m, g.keys, g.members, g.dummies, 0);
    assert(m.take(0) =~= Seq::<Seq<char>>::empty());
    assert(og.take(0) =~= Seq::<Seq<Seq<char>>>::empty());
    assert(dummy_keys_of(Seq::<Seq<char>>::empty()).len() == 0);
    assert(regrouping_at(m, g.keys, g.members, 0) == grouping(seq![], seq![], seq![], 0));
    lemma_grouped_is_regrouped(out);
    let g2 = grouped(out);
    assert(m.take(m.len() as int) =~= m);
    assert(og.take(m.len() as int) =~= og);
    assert(g2.order == m && g2.keys == m && g2.members == og);
    lemma_moved_twice(o);
    assert forall|i: int| 0 <= i < m.len() implies group_of(m, og, #[trigger] m[i]) == group_of(
        g.keys,
        g.members,
        m[i],
    ) by {
        lemma_index_of_distinct(m, i);
    }
    lemma_rendered_same_groups(m, m, og, g.keys, g.members, 0);
}

} // verus!
