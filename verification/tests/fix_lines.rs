use lib::fix::fix_lines;

fn lines(v: &[&str]) -> Vec<String> {
    v.iter().map(|s| s.to_string()).collect()
}

#[test]
fn blank_reference_lines_become_empty_lines() {
    let reference = lines(&["{", "  \"a\": \"A\",", "", "  \"b\": \"B\",", "   ", "  \"c\": \"C\"", "}"]);
    let input = lines(&["{", "  \"a\": \"x\",", "  \"b\": \"y\",", "  \"c\": \"z\"", "}"]);
    let output = fix_lines(&reference, &input);
    assert_eq!(
        output,
        lines(&["{", "  \"a\": \"x\",", "", "  \"b\": \"y\",", "", "  \"c\": \"z\"", "}"])
    );
}

#[test]
fn reference_lines_past_the_input_are_skipped() {
    let reference = lines(&["a", "", "b", "c", "", "d"]);
    let input = lines(&["1", "2"]);
    assert_eq!(fix_lines(&reference, &input), lines(&["1", "", "2", ""]));
}

#[test]
fn extra_input_lines_are_dropped() {
    let reference = lines(&["a", "\t"]);
    let input = lines(&["1", "2", "3"]);
    assert_eq!(fix_lines(&reference, &input), lines(&["1", ""]));
}

#[test]
fn empty_reference_gives_nothing() {
    let reference: Vec<String> = Vec::new();
    let input = lines(&["1"]);
    assert!(fix_lines(&reference, &input).is_empty());
}

#[test]
fn aligned_output_has_one_line_per_reference_line() {
    // Input lines are taken in order at the non-blank reference positions.
    let reference = lines(&["x", " ", "y", "z", "\u{3000}", "w"]);
    let input = lines(&["1", "2", "3", "4"]);
    let output = fix_lines(&reference, &input);
    assert_eq!(output.len(), reference.len());
    assert_eq!(output, lines(&["1", "", "2", "3", "", "4"]));
}

#[test]
fn blank_input_lines_are_copied() {
    let reference = lines(&["a", "b"]);
    let input = lines(&["", "  "]);
    assert_eq!(fix_lines(&reference, &input), lines(&["", "  "]));
}
