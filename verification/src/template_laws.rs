use vstd::prelude::*;
use crate::templates::{
    block_key, block_template_key, container_key, container_template_key, conveyor_belt,
    first_line_with, flushed, item_key, template_run, template_state, template_step, templated_lines,
    TemplateState,
};
use crate::text::{contains, find_from, occurs_at, replace_from};

verus! {

/// A key that starts with a double quote and has no other.
pub open spec fn quote_led(k: Seq<char>) -> bool {
    &&& k.len() >= 2
    &&& k[0] == '"'
    &&& forall|i: int| 1 <= i < k.len() ==> k[i] != '"'
}

/// A search finds the first occurrence at or after where it starts, and
/// finds nothing only when there is none.
proof fn lemma_find_from_first(s: Seq<char>, p: Seq<char>, i: int)
    requires
        0 <= i,
    ensures
        find_from(s, p, i) matches Some(j) ==> forall|q: int| i <= q < j ==> !occurs_at(s, p, q),
        find_from(s, p, i) is None ==> forall|q: int| i <= q ==> !occurs_at(s, p, q),
    decreases s.len() + 1 - i,
{
    if i + p.len() > s.len() {
    } else if occurs_at(s, p, i) {
    } else {
        lemma_find_from_first(s, p, i + 1);
    }
}

/// Replacing the occurrences of `b` by `t`, where both and `k` start with
/// a double quote and have no other, and `t` and `k` differ in their
/// second character, leaves no occurrence of `k`, as long as every
/// occurrence of `k` in the text was one of `b`.
proof fn lemma_replace_leaves_no_occurrence(
    s: Seq<char>,
    b: Seq<char>,
    t: Seq<char>,
    k: Seq<char>,
    pos: int,
)
    requires
        quote_led(b),
        quote_led(t),
        quote_led(k),
        t[1] != k[1],
        0 <= pos <= s.len(),
        forall|p: int| pos <= p && occurs_at(s, k, p) ==> occurs_at(s, b, p),
    ensures
        forall|p: int| !occurs_at(replace_from(s, b, t, pos), k, p),
    decreases s.len() + 1 - pos,
{
    let r = replace_from(s, b, t, pos);
    crate::text::lemma_find_from_bounds(s, b, pos);
    lemma_find_from_first(s, b, pos);
    match find_from(s, b, pos) {
        Some(j) => {
            let a = s.subrange(pos, j);
            let rest = replace_from(s, b, t, j + b.len());
            lemma_replace_leaves_no_occurrence(s, b, t, k, j + b.len());
            assert(r == a + t + rest);
            assert forall|p: int| !occurs_at(r, k, p) by {
                if occurs_at(r, k, p) {
                    assert forall|i: int| 0 <= i < k.len() implies r[p + i] == k[i] by {
                        assert(r.subrange(p, p + k.len())[i] == r[p + i]);
                    }
                    if p + k.len() <= a.len() {
                        assert(s.subrange(pos + p, pos + p + k.len()) =~= k) by {
                            assert forall|i: int| 0 <= i < k.len() implies s[pos + p + i] == k[i] by {
                                assert(r[p + i] == a[p + i]);
                            }
                        }
                        assert(occurs_at(s, k, pos + p));
                        assert(occurs_at(s, b, pos + p));
                    } else if p < a.len() {
                        let i = a.len() - p;
                        assert(r.subrange(p, p + k.len())[i] == r[p + i]);
                        assert(r[p + i] == k[i]);
                        assert(r[p + i] == t[0]);
                    } else if p < a.len() + t.len() {
                        assert(r.subrange(p, p + k.len())[0] == r[p]);
                        assert(r.subrange(p, p + k.len())[1] == r[p + 1]);
                        assert(r[p] == k[0]);
                        assert(r[p + 1] == k[1]);
                        assert(r[p] == t[p - a.len()]);
                        assert(p == a.len());
                        assert(r[p + 1] == t[1]);
                    } else {
                        let q = p - a.len() - t.len();
                        assert(rest.subrange(q, q + k.len()) =~= k) by {
                            assert forall|i: int| 0 <= i < k.len() implies rest[q + i] == k[i] by {
                                assert(r[p + i] == rest[q + i]);
                            }
                        }
                        assert(occurs_at(rest, k, q));
                    }
                }
            }
        },
        None => {
            assert(r == s.skip(pos));
            assert forall|p: int| !occurs_at(r, k, p) by {
                if occurs_at(r, k, p) {
                    assert(s.subrange(pos + p, pos + p + k.len()) =~= r.subrange(p, p + k.len()));
                    assert(occurs_at(s, k, pos + p));
                }
            }
        },
    }
}


/// The keys and template keys start with a double quote and have no other;
/// their second characters tell the keys from the template keys.
proof fn lemma_key_shapes()
    ensures
        quote_led(item_key()),
        quote_led(block_key()),
        quote_led(container_key()),
        quote_led(block_template_key()),
        quote_led(container_template_key()),
        block_template_key()[1] == '_',
        container_template_key()[1] == '_',
        item_key()[1] == 'i',
        block_key()[1] == 'b',
        container_key()[1] == 'c',
{
    reveal_strlit("\"item.energizedpower.");
    reveal_strlit("\"block.energizedpower.");
    reveal_strlit("\"container.energizedpower.");
    reveal_strlit("\"_template.epblock.");
    reveal_strlit("\"_template.epcontainer.");
}

/// A text without an occurrence has none anywhere.
proof fn lemma_not_contains(s: Seq<char>, k: Seq<char>)
    ensures
        !contains(s, k) <==> forall|p: int| !occurs_at(s, k, p),
{
    lemma_find_from_first(s, k, 0);
    crate::text::lemma_find_from_bounds(s, k, 0);
    if contains(s, k) {
        let j = find_from(s, k, 0)->0;
        assert(occurs_at(s, k, j));
    }
}

/// A combined template line made from a line whose only key is a block
/// key holds none of the three keys.
pub proof fn lemma_combined_line_has_no_key(line: Seq<char>, t: Seq<char>)
    requires
        t == block_template_key() || t == container_template_key(),
        !contains(line, item_key()),
        !contains(line, container_key()),
    ensures
        !contains(crate::text::replace(line, block_key(), t), item_key()),
        !contains(crate::text::replace(line, block_key(), t), block_key()),
        !contains(crate::text::replace(line, block_key(), t), container_key()),
{
    lemma_key_shapes();
    let r = crate::text::replace(line, block_key(), t);
    lemma_not_contains(line, item_key());
    lemma_not_contains(line, container_key());
    lemma_replace_leaves_no_occurrence(line, block_key(), t, item_key(), 0);
    lemma_replace_leaves_no_occurrence(line, block_key(), t, block_key(), 0);
    lemma_replace_leaves_no_occurrence(line, block_key(), t, container_key(), 0);
    lemma_not_contains(r, item_key());
    lemma_not_contains(r, block_key());
    lemma_not_contains(r, container_key());
}


/// Which translation a line is, as `update_templates` sorts it: 0 for an
/// item, 1 for a block, 2 for a container, 3 for any other line.
pub open spec fn line_kind(l: Seq<char>) -> int {
    if contains(l, item_key()) {
        0
    } else if contains(l, block_key()) {
        1
    } else if contains(l, container_key()) && !contains(l, conveyor_belt()) {
        2
    } else {
        3
    }
}

/// A line holds at most one of the item, block and container keys.
pub open spec fn single_keyed(l: Seq<char>) -> bool {
    (if contains(l, item_key()) { 1int } else { 0int }) + (if contains(l, block_key()) { 1int } else { 0int })
        + (if contains(l, container_key()) { 1int } else { 0int }) <= 1
}

/// The flag of a kind of translation.
pub open spec fn has_kind(st: TemplateState, kind: int) -> bool {
    if kind == 0 {
        st.has_item
    } else if kind == 1 {
        st.has_block
    } else {
        st.has_container
    }
}

/// The held-back lines are item, block or container lines, each kind at
/// most once, and the flags say which kinds are held back.
pub open spec fn tidy(st: TemplateState) -> bool {
    &&& forall|i: int| 0 <= i < st.buffer.len() ==> line_kind(#[trigger] st.buffer[i]) < 3
    &&& forall|i: int, j: int|
        0 <= i < j < st.buffer.len() ==> line_kind(#[trigger] st.buffer[i]) != line_kind(#[trigger] st.buffer[j])
    &&& forall|k: int|
        0 <= k < 3 ==> (#[trigger] has_kind(st, k) <==> exists|i: int| 0 <= i < st.buffer.len() && line_kind(st.buffer[i]) == k)
}

/// The state after the lines `ys`, starting from `st`.
pub open spec fn run_from(st: TemplateState, ys: Seq<Seq<char>>) -> TemplateState
    decreases ys.len(),
{
    if ys.len() == 0 {
        st
    } else {
        template_step(run_from(st, ys.drop_last()), ys.last())
    }
}

/// Reading two runs of lines is reading the first, then the second.
proof fn lemma_run_from_add(st: TemplateState, xs: Seq<Seq<char>>, ys: Seq<Seq<char>>)
    ensures
        run_from(st, xs + ys) == run_from(run_from(st, xs), ys),
    decreases ys.len(),
{
    if ys.len() == 0 {
        assert(xs + ys =~= xs);
    } else {
        assert((xs + ys).drop_last() =~= xs + ys.drop_last());
        assert((xs + ys).last() == ys.last());
        lemma_run_from_add(st, xs, ys.drop_last());
    }
}

/// Reading a file is reading from the start state.
proof fn lemma_template_run_is_run_from(lines: Seq<Seq<char>>)
    ensures
        template_run(lines) == run_from(template_state(seq![], seq![], false, false, false), lines),
    decreases lines.len(),
{
    if lines.len() > 0 {
        lemma_template_run_is_run_from(lines.drop_last());
    }
}

/// Item, block or container lines of kinds not yet held back are all held
/// back, and nothing is written.
proof fn lemma_absorb(st: TemplateState, b: Seq<Seq<char>>)
    requires
        tidy(st),
        forall|i: int| 0 <= i < b.len() ==> line_kind(#[trigger] b[i]) < 3,
        forall|i: int, j: int|
            0 <= i < j < (st.buffer + b).len() ==> line_kind(#[trigger] (st.buffer + b)[i]) != line_kind(
                #[trigger] (st.buffer + b)[j],
            ),
    ensures
        run_from(st, b).output == st.output,
        run_from(st, b).buffer == st.buffer + b,
        tidy(run_from(st, b)),
    decreases b.len(),
{
    if b.len() == 0 {
        assert(st.buffer + b =~= st.buffer);
    } else {
        let prev = b.drop_last();
        let l = b.last();
        assert(st.buffer + prev =~= (st.buffer + b).drop_last());
        assert forall|i: int, j: int| 0 <= i < j < (st.buffer + prev).len() implies line_kind(
            #[trigger] (st.buffer + prev)[i],
        ) != line_kind(#[trigger] (st.buffer + prev)[j]) by {
            assert((st.buffer + prev)[i] == (st.buffer + b)[i]);
            assert((st.buffer + prev)[j] == (st.buffer + b)[j]);
        }
        lemma_absorb(st, prev);
        let r = run_from(st, prev);
        let n = r.buffer.len() as int;
        assert((st.buffer + b)[n] == l);
        let k = line_kind(l);
        assert(k < 3) by {
            assert(b[b.len() - 1] == l);
        }
        assert(!has_kind(r, k)) by {
            if has_kind(r, k) {
                let i = choose|i: int| 0 <= i < r.buffer.len() && line_kind(r.buffer[i]) == k;
                assert(r.buffer[i] == (st.buffer + b)[i]);
            }
        }
        let r2 = run_from(st, b);
        assert(r2 == template_step(r, l));
        assert(r2.buffer == r.buffer.push(l));
        assert(r2.buffer =~= st.buffer + b);
        assert forall|i: int| 0 <= i < r2.buffer.len() implies line_kind(#[trigger] r2.buffer[i]) < 3 by {
            if i < n {
                assert(r2.buffer[i] == r.buffer[i]);
            }
        }
        assert forall|i: int, j: int| 0 <= i < j < r2.buffer.len() implies line_kind(
            #[trigger] r2.buffer[i],
        ) != line_kind(#[trigger] r2.buffer[j]) by {
            assert(r2.buffer[i] == (st.buffer + b)[i]);
            assert(r2.buffer[j] == (st.buffer + b)[j]);
        }
        assert forall|kk: int| 0 <= kk < 3 implies (#[trigger] has_kind(r2, kk) <==> exists|i: int|
            0 <= i < r2.buffer.len() && line_kind(r2.buffer[i]) == kk) by {
            if kk == k {
                assert(r2.buffer[n] == l);
            } else {
                assert(has_kind(r2, kk) == has_kind(r, kk));
                if exists|i: int| 0 <= i < r2.buffer.len() && line_kind(r2.buffer[i]) == kk {
                    let i = choose|i: int| 0 <= i < r2.buffer.len() && line_kind(r2.buffer[i]) == kk;
                    assert(i < n);
                    assert(r.buffer[i] == r2.buffer[i]);
                }
                if exists|i: int| 0 <= i < r.buffer.len() && line_kind(r.buffer[i]) == kk {
                    let i = choose|i: int| 0 <= i < r.buffer.len() && line_kind(r.buffer[i]) == kk;
                    assert(r.buffer[i] == r2.buffer[i]);
                }
            }
        }
    }
}


/// The lines that writing out the held-back lines adds.
pub open spec fn flush_lines(st: TemplateState) -> Seq<Seq<char>> {
    flushed(st).output.skip(st.output.len() as int)
}

/// Writing out adds its lines after those written so far, and leaves the
/// held-back lines as they are when they do not hold both an item and a
/// block.
proof fn lemma_flush_lines(st: TemplateState)
    ensures
        flushed(st).output == st.output + flush_lines(st),
        !(st.has_item && st.has_block) ==> flush_lines(st) == st.buffer,
{
    match first_line_with(st.buffer, block_key()) {
        Some(k) => {
            assert(flushed(st).output.take(st.output.len() as int) =~= st.output);
        },
        None => {},
    }
    assert(flushed(st).output =~= st.output + flushed(st).output.skip(st.output.len() as int));
    if !(st.has_item && st.has_block) {
        assert(flushed(st).output.skip(st.output.len() as int) =~= st.buffer);
    }
}

/// The first line with a key holds it; a list with such a line has a first
/// one.
proof fn lemma_first_line_with(lines: Seq<Seq<char>>, key: Seq<char>)
    ensures
        first_line_with(lines, key) matches Some(m) ==> 0 <= m < lines.len() && contains(lines[m], key),
        (exists|i: int| 0 <= i < lines.len() && contains(lines[i], key)) ==> first_line_with(lines, key) is Some,
    decreases lines.len(),
{
    if lines.len() > 0 {
        lemma_first_line_with(lines.drop_first(), key);
        if exists|i: int| 0 <= i < lines.len() && contains(lines[i], key) {
            let i = choose|i: int| 0 <= i < lines.len() && contains(lines[i], key);
            if i > 0 {
                assert(lines.drop_first()[i - 1] == lines[i]);
            }
        }
    }
}

/// A tidy state holds lines back exactly when a flag is set.
proof fn lemma_tidy_flags(st: TemplateState)
    requires
        tidy(st),
    ensures
        st.buffer.len() > 0 <==> (st.has_item || st.has_block || st.has_container),
{
    if st.buffer.len() > 0 {
        let k = line_kind(st.buffer[0]);
        assert(has_kind(st, k));
    }
    if st.has_item {
        assert(has_kind(st, 0));
    }
    if st.has_block {
        assert(has_kind(st, 1));
    }
    if st.has_container {
        assert(has_kind(st, 2));
    }
}

/// How a second run that never combines reads what the first run writes
/// out: after the lines held back by the second run, the first run's
/// written-out lines, which either are one combined line, read as another
/// line, or are the first run's held-back lines, held back in turn.
proof fn lemma_second_run_reads_flush(st1: TemplateState, st2: TemplateState)
    requires
        tidy(st1),
        forall|i: int| 0 <= i < st1.buffer.len() ==> single_keyed(#[trigger] st1.buffer[i]),
        tidy(st2),
        !(st2.has_item && st2.has_block),
        st1.buffer.len() > 0 && st2.buffer.len() > 0 ==> has_kind(st2, line_kind(st1.buffer[0])),
        st1.buffer.len() == 0 ==> st2.buffer.len() == 0,
    ensures
        ({
            let r = run_from(st2, flush_lines(st1));
            &&& r.output + r.buffer == st2.output + st2.buffer + flush_lines(st1)
            &&& tidy(r)
            &&& !(r.has_item && r.has_block)
            &&& st1.has_item && st1.has_block ==> r.buffer.len() == 0
            &&& !(st1.has_item && st1.has_block) ==> r.buffer == st1.buffer && forall|k: int|
                0 <= k < 3 ==> has_kind(r, k) == has_kind(st1, k)
        }),
{
    lemma_flush_lines(st1);
    lemma_tidy_flags(st2);
    let f = flush_lines(st1);
    let r = run_from(st2, f);
    if st1.has_item && st1.has_block {
        assert(has_kind(st1, 1));
        let w = choose|i: int| 0 <= i < st1.buffer.len() && line_kind(st1.buffer[i]) == 1;
        lemma_first_line_with(st1.buffer, block_key());
        assert(contains(st1.buffer[w], block_key()));
        let m = first_line_with(st1.buffer, block_key())->0;
        let line = st1.buffer[m];
        assert(single_keyed(line));
        let t = if st1.has_container { container_template_key() } else { block_template_key() };
        lemma_combined_line_has_no_key(line, t);
        let c = crate::text::replace(line, block_key(), t);
        assert(flushed(st1).output == st1.output.push(c));
        assert(f =~= seq![c]);
        assert(line_kind(c) == 3);
        assert(f.drop_last() =~= Seq::<Seq<char>>::empty());
        assert(run_from(st2, f.drop_last()) == st2);
        assert(f.last() == c);
        assert(r == template_step(st2, c));
        assert(r.output + r.buffer =~= st2.output + st2.buffer + f);
    } else if st1.buffer.len() == 0 {
        assert(f.len() == 0);
        assert(r == st2);
        assert(st2.output + st2.buffer + f =~= st2.output + st2.buffer);
        lemma_tidy_flags(st1);
    } else if st2.buffer.len() == 0 {
        assert(st2.buffer + f =~= f);
        lemma_absorb(st2, f);
        assert(r.output + r.buffer =~= st2.output + st2.buffer + f);
        lemma_tidy_flags(r);
        assert forall|k: int| 0 <= k < 3 implies has_kind(r, k) == has_kind(st1, k) by {
            assert(has_kind(r, k) <==> exists|i: int| 0 <= i < r.buffer.len() && line_kind(r.buffer[i]) == k);
            assert(has_kind(st1, k) <==> exists|i: int| 0 <= i < st1.buffer.len() && line_kind(st1.buffer[i]) == k);
        }
        assert(has_kind(r, 0) == st1.has_item);
        assert(has_kind(r, 1) == st1.has_block);
    } else {
        let f0 = f[0];
        let rest = f.drop_first();
        assert(f =~= seq![f0] + rest);
        lemma_run_from_add(st2, seq![f0], rest);
        let k0 = line_kind(f0);
        assert(k0 < 3);
        assert(has_kind(st2, k0));
        assert(seq![f0].drop_last() =~= Seq::<Seq<char>>::empty());
        assert(run_from(st2, seq![f0].drop_last()) == st2);
        assert(seq![f0].last() == f0);
        let s1 = run_from(st2, seq![f0]);
        assert(s1 == template_step(st2, f0));
        assert(flushed(st2).output == st2.output + st2.buffer);
        assert(s1.output == st2.output + st2.buffer);
        assert(s1.buffer =~= seq![f0]);
        assert forall|k: int| 0 <= k < 3 implies (#[trigger] has_kind(s1, k) <==> exists|i: int|
            0 <= i < s1.buffer.len() && line_kind(s1.buffer[i]) == k) by {
            if k == k0 {
                assert(s1.buffer[0] == f0);
            }
        }
        assert(tidy(s1));
        assert(s1.buffer + rest =~= f);
        lemma_absorb(s1, rest);
        assert(r.output + r.buffer =~= st2.output + st2.buffer + f);
        assert forall|k: int| 0 <= k < 3 implies has_kind(r, k) == has_kind(st1, k) by {
            assert(has_kind(r, k) <==> exists|i: int| 0 <= i < r.buffer.len() && line_kind(r.buffer[i]) == k);
            assert(has_kind(st1, k) <==> exists|i: int| 0 <= i < st1.buffer.len() && line_kind(st1.buffer[i]) == k);
        }
        assert(has_kind(r, 0) == st1.has_item);
        assert(has_kind(r, 1) == st1.has_block);
    }
}


/// Reading more lines after what a file's run wrote.
proof fn lemma_template_run_add(xs: Seq<Seq<char>>, ys: Seq<Seq<char>>)
    ensures
        template_run(xs + ys) == run_from(template_run(xs), ys),
{
    lemma_template_run_is_run_from(xs + ys);
    lemma_template_run_is_run_from(xs);
    lemma_run_from_add(template_state(seq![], seq![], false, false, false), xs, ys);
}

/// What a second run has read of the lines that the first run of a file
/// of single-keyed lines has written so far: it never combines, and it has
/// written or held back exactly those lines, holding back only what the
/// first run had written out uncombined.
proof fn lemma_second_run(lines: Seq<Seq<char>>)
    requires
        forall|i: int| 0 <= i < lines.len() ==> single_keyed(#[trigger] lines[i]),
    ensures
        ({
            let st1 = template_run(lines);
            let st2 = template_run(st1.output);
            &&& tidy(st1)
            &&& forall|i: int| 0 <= i < st1.buffer.len() ==> single_keyed(#[trigger] st1.buffer[i])
            &&& st2.output + st2.buffer == st1.output
            &&& tidy(st2)
            &&& !(st2.has_item && st2.has_block)
            &&& st1.buffer.len() > 0 && st2.buffer.len() > 0 ==> has_kind(st2, line_kind(st1.buffer[0]))
            &&& st1.buffer.len() == 0 ==> st2.buffer.len() == 0
        }),
    decreases lines.len(),
{
    let empty = template_state(seq![], seq![], false, false, false);
    if lines.len() == 0 {
        assert(template_run(empty.output) == empty);
        assert(Seq::<Seq<char>>::empty() + Seq::<Seq<char>>::empty() =~= Seq::<Seq<char>>::empty());
        assert(tidy(empty));
    } else {
        let prev = lines.drop_last();
        let l = lines.last();
        assert(single_keyed(l)) by {
            assert(lines[lines.len() - 1] == l);
        }
        assert forall|i: int| 0 <= i < prev.len() implies single_keyed(#[trigger] prev[i]) by {
            assert(prev[i] == lines[i]);
        }
        lemma_second_run(prev);
        let st1 = template_run(prev);
        let st2 = template_run(st1.output);
        let n1 = template_run(lines);
        assert(n1 == template_step(st1, l));
        let k = line_kind(l);
        lemma_tidy_flags(st1);
        lemma_tidy_flags(st2);
        if k < 3 && !has_kind(st1, k) {
            assert(seq![l].drop_last() =~= Seq::<Seq<char>>::empty());
            assert(run_from(st1, seq![l].drop_last()) == st1);
            assert(seq![l].last() == l);
            assert(run_from(st1, seq![l]) == n1);
            assert forall|i: int, j: int| 0 <= i < j < (st1.buffer + seq![l]).len() implies line_kind(
                #[trigger] (st1.buffer + seq![l])[i],
            ) != line_kind(#[trigger] (st1.buffer + seq![l])[j]) by {
                if j == st1.buffer.len() {
                    assert((st1.buffer + seq![l])[j] == l);
                    assert((st1.buffer + seq![l])[i] == st1.buffer[i]);
                    if line_kind(st1.buffer[i]) == k {
                        assert(has_kind(st1, k));
                    }
                } else {
                    assert((st1.buffer + seq![l])[i] == st1.buffer[i]);
                    assert((st1.buffer + seq![l])[j] == st1.buffer[j]);
                }
            }
            lemma_absorb(st1, seq![l]);
            assert(n1.output == st1.output);
            assert(n1.buffer == st1.buffer + seq![l]);
            assert forall|i: int| 0 <= i < n1.buffer.len() implies single_keyed(#[trigger] n1.buffer[i]) by {
                if i < st1.buffer.len() {
                    assert(n1.buffer[i] == st1.buffer[i]);
                } else {
                    assert(n1.buffer[i] == l);
                }
            }
            if st1.buffer.len() > 0 {
                assert(n1.buffer[0] == st1.buffer[0]);
            }
        } else {
            lemma_second_run_reads_flush(st1, st2);
            lemma_flush_lines(st1);
            let f = flush_lines(st1);
            let r = run_from(st2, f);
            let any = st1.has_item || st1.has_block || st1.has_container;
            if k < 3 {
                assert(has_kind(st1, k));
                assert(n1.output == st1.output + f);
                assert(n1.buffer =~= seq![l]);
                lemma_template_run_add(st1.output, f);
                assert forall|kk: int| 0 <= kk < 3 implies (#[trigger] has_kind(n1, kk) <==> exists|i: int|
                    0 <= i < n1.buffer.len() && line_kind(n1.buffer[i]) == kk) by {
                    if kk == k {
                        assert(n1.buffer[0] == l);
                    }
                }
                assert(tidy(n1));
                if r.buffer.len() > 0 {
                    assert(has_kind(r, k) == has_kind(st1, k));
                }
                assert(n1.buffer[0] == l);
                assert(template_run(n1.output) == r);
                assert(r.output + r.buffer =~= n1.output);
                assert(tidy(r));
            } else if any {
                assert(n1.output == st1.output + f + seq![l]);
                assert(n1.buffer.len() == 0);
                lemma_template_run_add(st1.output, f + seq![l]);
                assert(st1.output + f + seq![l] =~= st1.output + (f + seq![l]));
                lemma_run_from_add(st2, f, seq![l]);
                assert(seq![l].drop_last() =~= Seq::<Seq<char>>::empty());
                assert(run_from(r, seq![l].drop_last()) == r);
                assert(seq![l].last() == l);
                let r2 = run_from(r, seq![l]);
                assert(r2 == template_step(r, l));
                lemma_tidy_flags(r);
                assert(r2.output + r2.buffer =~= r.output + r.buffer + seq![l]);
                assert(st1.output + f + seq![l] =~= st2.output + st2.buffer + f + seq![l]);
                assert(tidy(n1));
                assert(tidy(r2));
                assert(template_run(n1.output) == r2);
                assert(r2.output + r2.buffer =~= n1.output);
            } else {
                assert(st1.buffer.len() == 0);
                assert(st2.buffer.len() == 0);
                assert(n1.output == st1.output.push(l));
                lemma_template_run_add(st1.output, seq![l]);
                assert(seq![l].drop_last() =~= Seq::<Seq<char>>::empty());
                assert(run_from(st2, seq![l].drop_last()) == st2);
                assert(seq![l].last() == l);
                let r2 = run_from(st2, seq![l]);
                assert(r2 == template_step(st2, l));
                assert(st1.output.push(l) =~= st1.output + seq![l]);
                assert(r2.output + r2.buffer =~= st2.output + st2.buffer + seq![l]);
                assert(tidy(n1));
                assert(tidy(r2));
                assert(template_run(n1.output) == r2);
                assert(r2.output + r2.buffer =~= n1.output);
            }
        }
    }
}

/// A file in which no line holds two of the item, block and container keys
/// is left as it is by a second run: the first run combined all there is
/// to combine.
pub proof fn lemma_templated_twice(lines: Seq<Seq<char>>)
    requires
        forall|i: int| 0 <= i < lines.len() ==> single_keyed(#[trigger] lines[i]),
    ensures
        templated_lines(templated_lines(lines)) == templated_lines(lines),
{
    lemma_second_run(lines);
    let st1 = template_run(lines);
    let st2 = template_run(st1.output);
    lemma_second_run_reads_flush(st1, st2);
    lemma_flush_lines(st1);
    let f = flush_lines(st1);
    let o1 = templated_lines(lines);
    assert(o1 == st1.output + f);
    lemma_template_run_add(st1.output, f);
    let r = run_from(st2, f);
    assert(template_run(o1) == r);
    lemma_flush_lines(r);
    assert(templated_lines(o1) == r.output + r.buffer);
    assert(st2.output + st2.buffer + f =~= o1);
}

} // verus!
