use vstd::prelude::*;
use crate::text::{chars_of, find, find_chars, same_chars};

verus! {

/// The text before the first `":` of a line: its translation key, if the
/// line has one.
pub open spec fn key_of(line: Seq<char>) -> Option<Seq<char>> {
    match find(line, "\":"@) {
        Some(i) => Some(line.take(i)),
        None => None,
    }
}

/// Two lines are the same line, or both have a translation key and the
/// keys are equal.
pub open spec fn same_translation_key(a: Seq<char>, b: Seq<char>) -> bool {
    a == b || (key_of(a) is Some && key_of(b) is Some && key_of(a) == key_of(b))
}

/// Whether the first `n` characters of `a` and of `b` are equal.
fn same_prefix(a: &Vec<char>, b: &Vec<char>, n: usize) -> (r: bool)
    requires
        n <= a@.len(),
        n <= b@.len(),
    ensures
        r == (a@.take(n as int) == b@.take(n as int)),
{
    let mut k: usize = 0;
    while k < n
        invariant
            n <= a@.len(),
            n <= b@.len(),
            k <= n,
            forall|m: int| 0 <= m < k ==> a@[m] == b@[m],
        decreases n - k,
    {
        if a[k] != b[k] {
            assert(a@.take(n as int)[k as int] != b@.take(n as int)[k as int]);
            return false;
        }
        k = k + 1;
    }
    assert(a@.take(n as int) =~= b@.take(n as int));
    true
}

/// Whether two lines are the same line or translate the same key.
pub fn translation_key_equals(line_a: &str, line_b: &str) -> (r: bool)
    ensures
        r == same_translation_key(line_a@, line_b@),
{
    let a = chars_of(line_a);
    let b = chars_of(line_b);
    if same_chars(&a, &b) {
        return true;
    }
    let sep = chars_of("\":");
    match (find_chars(&a, &sep), find_chars(&b, &sep)) {
        (Some(ia), Some(ib)) => {
            proof {
                crate::text::lemma_find_from_bounds(a@, sep@, 0);
                crate::text::lemma_find_from_bounds(b@, sep@, 0);
            }
            if ia != ib {
                assert(a@.take(ia as int).len() != b@.take(ib as int).len());
                false
            } else {
                same_prefix(&a, &b, ia)
            }
        },
        _ => false,
    }
}

/// The reference lines written before `line`: those before the first
/// reference line with the same key as `line` (all of them when none has).
pub open spec fn reference_lines_before(reference: Seq<Seq<char>>, line: Seq<char>) -> Seq<Seq<char>>
    decreases reference.len(),
{
    if reference.len() == 0 {
        seq![]
    } else if same_translation_key(line, reference[0]) {
        seq![]
    } else {
        seq![reference[0]] + reference_lines_before(reference.drop_first(), line)
    }
}

/// The reference lines left after `line`: those after the first reference
/// line with the same key as `line` (none when no reference line has it).
pub open spec fn reference_lines_after(reference: Seq<Seq<char>>, line: Seq<char>) -> Seq<Seq<char>>
    decreases reference.len(),
{
    if reference.len() == 0 {
        seq![]
    } else if same_translation_key(line, reference[0]) {
        reference.drop_first()
    } else {
        reference_lines_after(reference.drop_first(), line)
    }
}

/// Each input line, preceded by the reference lines that come before its
/// key in what is left of the reference.
pub open spec fn merged_lines(reference: Seq<Seq<char>>, input: Seq<Seq<char>>) -> Seq<Seq<char>>
    decreases input.len(),
{
    if input.len() == 0 {
        seq![]
    } else {
        reference_lines_before(reference, input[0]) + seq![input[0]] + merged_lines(
            reference_lines_after(reference, input[0]),
            input.drop_first(),
        )
    }
}

/// Adds to `input` the lines of `reference` that it lacks: before each
/// input line come the reference lines up to the one with the same key.
pub fn add_new_translations(reference: &Vec<String>, input: &Vec<String>) -> (output: Vec<String>)
    ensures
        output.deep_view() == merged_lines(reference.deep_view(), input.deep_view()),
{
    let ghost rv = reference.deep_view();
    let ghost iv = input.deep_view();
    let mut output: Vec<String> = Vec::new();
    let mut p: usize = 0;
    let mut i: usize = 0;
    assert(rv.skip(0) =~= rv);
    assert(iv.skip(0) =~= iv);
    assert(output.deep_view() =~= Seq::<Seq<char>>::empty());
    while i < input.len()
        invariant
            rv == reference.deep_view(),
            iv == input.deep_view(),
            i <= input.len(),
            p <= reference.len(),
            merged_lines(rv, iv) == output.deep_view() + merged_lines(rv.skip(p as int), iv.skip(i as int)),
        decreases input.len() - i,
    {
        let ghost line = iv[i as int];
        let ghost out0 = output.deep_view();
        let ghost p0 = p;
        let ghost mut copied: Seq<Seq<char>> = seq![];
        let mut done = false;
        while !done && p < reference.len()
            invariant
                rv == reference.deep_view(),
                iv == input.deep_view(),
                i < input.len(),
                line == iv[i as int],
                p0 <= p <= reference.len(),
                output.deep_view() == out0 + copied,
                !done ==> reference_lines_before(rv.skip(p0 as int), line) == copied
                    + reference_lines_before(rv.skip(p as int), line),
                !done ==> reference_lines_after(rv.skip(p0 as int), line) == reference_lines_after(
                    rv.skip(p as int),
                    line,
                ),
                done ==> reference_lines_before(rv.skip(p0 as int), line) == copied,
                done ==> reference_lines_after(rv.skip(p0 as int), line) == rv.skip(p as int),
            decreases reference.len() - p,
        {
            assert(rv.skip(p as int)[0] == rv[p as int]);
            assert(rv.skip(p as int).drop_first() =~= rv.skip(p + 1));
            if translation_key_equals(input[i].as_str(), reference[p].as_str()) {
                done = true;
                assert(copied + Seq::<Seq<char>>::empty() =~= copied);
            } else {
                let ghost before = output.deep_view();
                output.push(reference[p].clone());
                assert(output.deep_view() =~= before + seq![rv[p as int]]);
                proof {
                    assert(copied + reference_lines_before(rv.skip(p as int), line) =~= (copied + seq![
                        rv[p as int],
                    ]) + reference_lines_before(rv.skip(p + 1), line));
                    copied = copied + seq![rv[p as int]];
                }
                assert(output.deep_view() =~= out0 + copied);
            }
            p = p + 1;
        }
        proof {
            if !done {
                assert(rv.skip(p as int).len() == 0);
                assert(copied + Seq::<Seq<char>>::empty() =~= copied);
                assert(rv.skip(p as int) =~= Seq::<Seq<char>>::empty());
            }
        }
        let ghost before_push = output.deep_view();
        output.push(input[i].clone());
        assert(output.deep_view() =~= before_push + seq![line]);
        assert(iv.skip(i as int)[0] == line);
        assert(iv.skip(i as int).drop_first() =~= iv.skip(i + 1));
        assert(merged_lines(rv.skip(p0 as int), iv.skip(i as int)) == copied + seq![line] + merged_lines(
            rv.skip(p as int),
            iv.skip(i + 1),
        ));
        assert(out0 + (copied + seq![line] + merged_lines(rv.skip(p as int), iv.skip(i + 1)))
            =~= output.deep_view() + merged_lines(rv.skip(p as int), iv.skip(i + 1)));
        i = i + 1;
    }
    assert(iv.skip(i as int).len() == 0);
    assert(output.deep_view() + Seq::<Seq<char>>::empty() =~= output.deep_view());
    output
}

/// Two different lines share a translation key only when both have one and
/// the whole keys are equal; lines with equal keys share it; and a key that
/// is a proper prefix of another never matches it.
pub proof fn lemma_same_translation_key_whole_keys(a: Seq<char>, b: Seq<char>)
    ensures
        same_translation_key(a, b) && a != b ==> key_of(a) is Some && key_of(a) == key_of(b),
        key_of(a) is Some && key_of(a) == key_of(b) ==> same_translation_key(a, b),
        key_of(a) matches Some(ka) && key_of(b) matches Some(kb) && ka.len() < kb.len() ==> !same_translation_key(a, b),
{
}

/// Lines that share a translation key with a third share it with each
/// other.
pub proof fn lemma_same_translation_key_transitive(a: Seq<char>, b: Seq<char>, c: Seq<char>)
    requires
        same_translation_key(a, b),
        same_translation_key(b, c),
    ensures
        same_translation_key(a, c),
{
}

/// The relation of translation keys is reflexive and symmetric.
pub proof fn lemma_same_translation_key_reflexive_symmetric(a: Seq<char>, b: Seq<char>)
    ensures
        same_translation_key(a, a),
        same_translation_key(a, b) == same_translation_key(b, a),
{
}

/// Merging a file with itself gives the file back.
pub proof fn lemma_merge_with_itself(lines: Seq<Seq<char>>)
    ensures
        merged_lines(lines, lines) == lines,
    decreases lines.len(),
{
    if lines.len() > 0 {
        let rest = lines.drop_first();
        assert(reference_lines_before(lines, lines[0]) == Seq::<Seq<char>>::empty());
        assert(reference_lines_after(lines, lines[0]) == rest);
        lemma_merge_with_itself(rest);
        assert(Seq::<Seq<char>>::empty() + seq![lines[0]] + rest =~= lines);
    }
}

/// With no reference lines, the input lines are kept as they are.
pub proof fn lemma_merge_without_reference(input: Seq<Seq<char>>)
    ensures
        merged_lines(Seq::<Seq<char>>::empty(), input) == input,
    decreases input.len(),
{
    if input.len() > 0 {
        let rest = input.drop_first();
        lemma_merge_without_reference(rest);
        assert(Seq::<Seq<char>>::empty() + seq![input[0]] + rest =~= input);
    }
}

/// The reference lines written before a line and those left after it
/// together hold no more lines than the reference.
pub proof fn lemma_reference_split_length(reference: Seq<Seq<char>>, line: Seq<char>)
    ensures
        reference_lines_before(reference, line).len() + reference_lines_after(reference, line).len()
            <= reference.len(),
    decreases reference.len(),
{
    if reference.len() > 0 && !same_translation_key(line, reference[0]) {
        lemma_reference_split_length(reference.drop_first(), line);
    }
}

/// A merge writes each input line once and each reference line at most
/// once.
pub proof fn lemma_merged_length(reference: Seq<Seq<char>>, input: Seq<Seq<char>>)
    ensures
        merged_lines(reference, input).len() <= reference.len() + input.len(),
    decreases input.len(),
{
    if input.len() > 0 {
        lemma_reference_split_length(reference, input[0]);
        lemma_merged_length(reference_lines_after(reference, input[0]), input.drop_first());
    }
}


/// `pos` gives, for each line of `small`, a position in `big` that holds
/// it, the positions rising.
pub open spec fn placed_at(small: Seq<Seq<char>>, big: Seq<Seq<char>>, pos: Seq<int>) -> bool {
    &&& pos.len() == small.len()
    &&& forall|k: int| 0 <= k < pos.len() ==> 0 <= #[trigger] pos[k] < big.len() && big[pos[k]] == small[k]
    &&& forall|a: int, b: int| 0 <= a < b < pos.len() ==> #[trigger] pos[a] < #[trigger] pos[b]
}

/// The lines of `small` occur in `big` in the same order, perhaps with
/// other lines between them.
pub open spec fn occurs_in_order(small: Seq<Seq<char>>, big: Seq<Seq<char>>) -> bool {
    exists|pos: Seq<int>| #[trigger] placed_at(small, big, pos)
}

/// Every input line is kept, and the input lines keep their order.
pub proof fn lemma_merge_keeps_input(reference: Seq<Seq<char>>, input: Seq<Seq<char>>)
    ensures
        occurs_in_order(input, merged_lines(reference, input)),
    decreases input.len(),
{
    if input.len() == 0 {
        assert(placed_at(input, merged_lines(reference, input), Seq::<int>::empty()));
    } else {
        let before = reference_lines_before(reference, input[0]);
        let after = reference_lines_after(reference, input[0]);
        let rest = merged_lines(after, input.drop_first());
        lemma_merge_keeps_input(after, input.drop_first());
        let m = merged_lines(reference, input);
        let i = before.len() as int;
        assert(m == before + seq![input[0]] + rest);
        let tail = input.drop_first();
        let q = choose|q: Seq<int>| #[trigger] placed_at(tail, rest, q);
        let pos = seq![i] + q.map_values(|v: int| v + i + 1);
        assert forall|k: int| 0 <= k < pos.len() implies 0 <= #[trigger] pos[k] < m.len() && m[pos[k]]
            == input[k] by {
            if k > 0 {
                assert(pos[k] == q[k - 1] + i + 1);
                assert(m[pos[k]] == rest[q[k - 1]]);
            }
        }
        assert forall|a: int, b: int| 0 <= a < b < pos.len() implies #[trigger] pos[a] < #[trigger] pos[b] by {
            if a > 0 {
                assert(q[a - 1] < q[b - 1]);
            } else {
                assert(pos[b] == q[b - 1] + i + 1);
                assert(0 <= q[b - 1]);
            }
        }
        assert(placed_at(input, m, pos));
    }
}


/// The reference lines written before a line are the reference lines up
/// to the first with its key; those left after it follow that line, or
/// there are none when no reference line has its key.
pub proof fn lemma_reference_split(reference: Seq<Seq<char>>, line: Seq<char>)
    ensures
        ({
            let k = reference_lines_before(reference, line).len() as int;
            &&& k <= reference.len()
            &&& reference_lines_before(reference, line) == reference.take(k)
            &&& k < reference.len() ==> same_translation_key(line, reference[k])
                && reference_lines_after(reference, line) == reference.skip(k + 1)
            &&& k == reference.len() ==> reference_lines_after(reference, line) == Seq::<Seq<char>>::empty()
        }),
    decreases reference.len(),
{
    if reference.len() == 0 {
        assert(reference.take(0) =~= Seq::<Seq<char>>::empty());
    } else if same_translation_key(line, reference[0]) {
        assert(reference.take(0) =~= Seq::<Seq<char>>::empty());
        assert(reference.skip(1) =~= reference.drop_first());
    } else {
        let rest = reference.drop_first();
        lemma_reference_split(rest, line);
        let k = reference_lines_before(rest, line).len() as int;
        assert(reference.take(k + 1) =~= seq![reference[0]] + rest.take(k));
        if k < rest.len() {
            assert(reference[k + 1] == rest[k]);
            assert(reference.skip(k + 2) =~= rest.skip(k + 1));
        }
    }
}

/// Input that starts with the first `k` reference lines writes them as
/// they are and uses them up.
proof fn lemma_merge_reference_prefix(reference: Seq<Seq<char>>, k: int, rest: Seq<Seq<char>>)
    requires
        0 <= k <= reference.len(),
    ensures
        merged_lines(reference, reference.take(k) + rest) == reference.take(k) + merged_lines(
            reference.skip(k),
            rest,
        ),
    decreases k,
{
    if k == 0 {
        assert(reference.take(0) + rest =~= rest);
        assert(reference.skip(0) =~= reference);
        assert(reference.take(0) + merged_lines(reference, rest) =~= merged_lines(reference, rest));
    } else {
        let tail = reference.drop_first();
        let input = reference.take(k) + rest;
        lemma_merge_reference_prefix(tail, k - 1, rest);
        assert(input[0] == reference[0]);
        assert(input.drop_first() =~= tail.take(k - 1) + rest);
        assert(reference_lines_before(reference, reference[0]) == Seq::<Seq<char>>::empty());
        assert(reference_lines_after(reference, reference[0]) == tail);
        assert(tail.skip(k - 1) =~= reference.skip(k));
        assert(merged_lines(reference, input) == Seq::<Seq<char>>::empty() + seq![reference[0]]
            + merged_lines(tail, tail.take(k - 1) + rest));
        assert(reference.take(k) =~= seq![reference[0]] + tail.take(k - 1));
        assert(Seq::<Seq<char>>::empty() + seq![reference[0]] + (tail.take(k - 1) + merged_lines(
            reference.skip(k),
            rest,
        )) =~= reference.take(k) + merged_lines(reference.skip(k), rest));
    }
}

/// Adding the same reference's translations a second time changes
/// nothing.
pub proof fn lemma_merge_idempotent(reference: Seq<Seq<char>>, input: Seq<Seq<char>>)
    ensures
        merged_lines(reference, merged_lines(reference, input)) == merged_lines(reference, input),
    decreases input.len(),
{
    if input.len() > 0 {
        let x = input[0];
        let b = reference_lines_before(reference, x);
        let a = reference_lines_after(reference, x);
        let rest = merged_lines(a, input.drop_first());
        let m = merged_lines(reference, input);
        let k = b.len() as int;
        lemma_reference_split(reference, x);
        lemma_merge_idempotent(a, input.drop_first());
        assert(m == b + seq![x] + rest);
        assert(m =~= reference.take(k) + (seq![x] + rest));
        lemma_merge_reference_prefix(reference, k, seq![x] + rest);
        let r2 = reference.skip(k);
        let t = seq![x] + rest;
        assert(t[0] == x);
        assert(t.drop_first() =~= rest);
        if k < reference.len() {
            assert(r2[0] == reference[k]);
            assert(reference_lines_before(r2, x) == Seq::<Seq<char>>::empty());
            assert(r2.drop_first() =~= reference.skip(k + 1));
            assert(reference_lines_after(r2, x) == a);
        } else {
            assert(r2.len() == 0);
        }
        assert(merged_lines(r2, t) == Seq::<Seq<char>>::empty() + seq![x] + merged_lines(a, rest));
        assert(reference.take(k) + (Seq::<Seq<char>>::empty() + seq![x] + rest) =~= m);
    }
}

} // verus!
