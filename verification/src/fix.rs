use vstd::prelude::*;
use crate::text::{blank, chars_of, is_blank};

verus! {

/// The lines written for `reference` when the lines of `input` are laid
/// out along it: a blank reference line gives an empty line, any other
/// reference line takes the next input line, and is skipped once the
/// input is used up.
pub open spec fn fixed_lines(reference: Seq<Seq<char>>, input: Seq<Seq<char>>) -> Seq<Seq<char>>
    decreases reference.len(),
{
    if reference.len() == 0 {
        seq![]
    } else if is_blank(reference[0]) {
        seq![Seq::<char>::empty()] + fixed_lines(reference.drop_first(), input)
    } else if input.len() > 0 {
        seq![input[0]] + fixed_lines(reference.drop_first(), input.drop_first())
    } else {
        fixed_lines(reference.drop_first(), input)
    }
}

/// The number of lines of `lines` that are not blank.
pub open spec fn non_blank_count(lines: Seq<Seq<char>>) -> nat
    decreases lines.len(),
{
    if lines.len() == 0 {
        0
    } else {
        (if is_blank(lines[0]) { 0nat } else { 1nat }) + non_blank_count(lines.drop_first())
    }
}

/// Lays the lines of `input` out along the blank lines of `reference`:
/// for each reference line, an empty line where it is blank, else the
/// next line of `input`, if any is left.
pub fn fix_lines(reference: &Vec<String>, input: &Vec<String>) -> (output: Vec<String>)
    ensures
        output.deep_view() == fixed_lines(reference.deep_view(), input.deep_view()),
{
    let ghost rv = reference.deep_view();
    let ghost iv = input.deep_view();
    let mut output: Vec<String> = Vec::new();
    let mut i: usize = 0;
    let mut j: usize = 0;
    assert(rv.skip(0) =~= rv);
    assert(iv.skip(0) =~= iv);
    assert(output.deep_view() =~= Seq::<Seq<char>>::empty());
    while i < reference.len()
        invariant
            rv == reference.deep_view(),
            iv == input.deep_view(),
            i <= reference.len(),
            j <= input.len(),
            fixed_lines(rv, iv) == output.deep_view() + fixed_lines(rv.skip(i as int), iv.skip(j as int)),
        decreases reference.len() - i,
    {
        let line = chars_of(reference[i].as_str());
        let ghost before = output.deep_view();
        assert(rv.skip(i as int)[0] == rv[i as int]);
        assert(rv.skip(i as int).drop_first() =~= rv.skip(i + 1));
        if blank(&line) {
            output.push(String::new());
            assert(output.deep_view() =~= before + seq![Seq::<char>::empty()]);
        } else if j < input.len() {
            output.push(input[j].clone());
            assert(iv.skip(j as int)[0] == iv[j as int]);
            assert(iv.skip(j as int).drop_first() =~= iv.skip(j + 1));
            assert(output.deep_view() =~= before + seq![iv[j as int]]);
            j = j + 1;
        } else {
            assert(iv.skip(j as int).len() == 0);
        }
        i = i + 1;
    }
    assert(rv.skip(i as int).len() == 0);
    assert(output.deep_view() =~= output.deep_view() + Seq::<Seq<char>>::empty());
    output
}

/// When the input has a line for every non-blank reference line, the
/// output has one line per reference line: an empty line where the
/// reference line is blank, and otherwise the input line whose position
/// among the input lines is the reference line's position among the
/// non-blank reference lines.
pub proof fn lemma_fixed_lines_align(reference: Seq<Seq<char>>, input: Seq<Seq<char>>)
    requires
        input.len() >= non_blank_count(reference),
    ensures
        fixed_lines(reference, input).len() == reference.len(),
        forall|k: int|
            0 <= k < reference.len() && !is_blank(reference[k]) ==> #[trigger] non_blank_count(
                reference.take(k),
            ) < non_blank_count(reference),
        forall|k: int|
            0 <= k < reference.len() ==> #[trigger] fixed_lines(reference, input)[k] == if is_blank(
                reference[k],
            ) {
                Seq::<char>::empty()
            } else {
                input[non_blank_count(reference.take(k)) as int]
            },
    decreases reference.len(),
{
    if reference.len() > 0 {
        let rest = reference.drop_first();
        let inp = if is_blank(reference[0]) { input } else { input.drop_first() };
        lemma_fixed_lines_align(rest, inp);
        let head = if is_blank(reference[0]) { Seq::<char>::empty() } else { input[0] };
        assert(fixed_lines(reference, input) == seq![head] + fixed_lines(rest, inp));
        assert forall|k: int| 0 <= k < reference.len() && !is_blank(reference[k]) implies #[trigger] non_blank_count(
            reference.take(k),
        ) < non_blank_count(reference) by {
            if k > 0 {
                assert(reference.take(k).drop_first() =~= rest.take(k - 1));
                assert(rest[k - 1] == reference[k]);
                assert(reference.take(k)[0] == reference[0]);
                assert(non_blank_count(reference.take(k)) == (if is_blank(reference[0]) { 0nat } else { 1nat })
                    + non_blank_count(rest.take(k - 1)));
            } else {
                assert(reference.take(0) =~= Seq::<Seq<char>>::empty());
                assert(non_blank_count(reference.take(0)) == 0);
            }
        }
        assert forall|k: int| 0 <= k < reference.len() implies #[trigger] fixed_lines(reference, input)[k]
            == if is_blank(reference[k]) {
            Seq::<char>::empty()
        } else {
            input[non_blank_count(reference.take(k)) as int]
        } by {
            if k > 0 {
                assert(reference.take(k).drop_first() =~= rest.take(k - 1));
                assert(reference.take(k)[0] == reference[0]);
                assert(rest[k - 1] == reference[k]);
                assert(non_blank_count(reference.take(k)) == (if is_blank(reference[0]) { 0nat } else { 1nat })
                    + non_blank_count(rest.take(k - 1)));
                assert(fixed_lines(reference, input)[k] == fixed_lines(rest, inp)[k - 1]);
                if !is_blank(reference[k]) {
                    let m = non_blank_count(rest.take(k - 1)) as int;
                    assert(non_blank_count(rest.take(k - 1)) < non_blank_count(rest));
                    assert(fixed_lines(rest, inp)[k - 1] == inp[m]);
                    if !is_blank(reference[0]) {
                        assert(inp[m] == input[m + 1]);
                    }
                }
            } else {
                assert(reference.take(0) =~= Seq::<Seq<char>>::empty());
                assert(non_blank_count(reference.take(0)) == 0);
            }
        }
    }
}

} // verus!
