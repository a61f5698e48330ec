use lib::merge::{add_new_translations, translation_key_equals};

fn lines(v: &[&str]) -> Vec<String> {
    v.iter().map(|s| s.to_string()).collect()
}

#[test]
fn missing_keys_are_added_from_the_reference() {
    let reference = lines(&["{", "  \"a\": \"A\",", "  \"b\": \"B\",", "  \"c\": \"C\"", "}"]);
    let input = lines(&["{", "  \"a\": \"x\",", "  \"c\": \"z\"", "}"]);
    assert_eq!(
        add_new_translations(&reference, &input),
        lines(&["{", "  \"a\": \"x\",", "  \"b\": \"B\",", "  \"c\": \"z\"", "}"])
    );
}

#[test]
fn merging_a_file_with_itself_keeps_it() {
    let file = lines(&["{", "  \"a\": \"A\",", "", "  \"b\": \"B\"", "}"]);
    assert_eq!(add_new_translations(&file, &file), file);
}

#[test]
fn empty_reference_keeps_input() {
    let reference: Vec<String> = Vec::new();
    let input = lines(&["{", "  \"a\": \"x\"", "}"]);
    assert_eq!(add_new_translations(&reference, &input), input);
}

#[test]
fn unmatched_input_line_consumes_the_rest_of_the_reference() {
    let reference = lines(&["  \"a\": \"A\",", "  \"b\": \"B\","]);
    let input = lines(&["  \"z\": \"Z\",", "  \"a\": \"x\","]);
    assert_eq!(
        add_new_translations(&reference, &input),
        lines(&["  \"a\": \"A\",", "  \"b\": \"B\",", "  \"z\": \"Z\",", "  \"a\": \"x\","])
    );
}

#[test]
fn output_is_at_most_both_files() {
    let reference = lines(&["a", "b", "c"]);
    let input = lines(&["x", "y"]);
    let out = add_new_translations(&reference, &input);
    assert!(out.len() <= reference.len() + input.len());
    assert_eq!(out, lines(&["a", "b", "c", "x", "y"]));
}

#[test]
fn keys_compare_before_the_colon() {
    assert!(translation_key_equals("  \"a\": \"x\",", "  \"a\": \"y\""));
    assert!(!translation_key_equals("  \"a\": \"x\",", " \"a\": \"x\","));
    assert!(translation_key_equals("{", "{"));
    assert!(!translation_key_equals("{", "}"));
    assert!(!translation_key_equals("  \"a\" : \"x\"", "  \"a\" : \"y\""));
    assert!(!translation_key_equals("  \"a\": \"x\"", "  \"a\" : \"x\""));
}

#[test]
fn key_relation_is_symmetric() {
    let samples = ["\"a\": 1", "\"a\": 2", "\"b\": 1", "x", "\"a\"", ""];
    for a in samples.iter() {
        assert!(translation_key_equals(a, a));
        for b in samples.iter() {
            assert_eq!(translation_key_equals(a, b), translation_key_equals(b, a));
        }
    }
}

#[test]
fn input_lines_keep_their_order() {
    let reference = lines(&["  \"a\": \"A\",", "  \"b\": \"B\",", "  \"c\": \"C\",", "  \"d\": \"D\","]);
    let input = lines(&["  \"b\": \"x\",", "  \"d\": \"y\","]);
    let out = add_new_translations(&reference, &input);
    let positions: Vec<usize> = input.iter().map(|l| out.iter().position(|o| o == l).unwrap()).collect();
    assert!(positions[0] < positions[1]);
    assert_eq!(out, lines(&["  \"a\": \"A\",", "  \"b\": \"x\",", "  \"c\": \"C\",", "  \"d\": \"y\","]));
}

#[test]
fn merging_the_same_reference_twice_changes_nothing() {
    let reference = lines(&["{", "  \"a\": \"A\",", "  \"b\": \"B\",", "  \"c\": \"C\"", "}"]);
    let input = lines(&["{", "  \"c\": \"z\"", "  \"x\": \"X\",", "}"]);
    let once = add_new_translations(&reference, &input);
    let twice = add_new_translations(&reference, &once);
    assert_eq!(twice, once);
}
