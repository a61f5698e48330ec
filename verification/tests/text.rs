use lib::text::{chars_of, replace_str, trimmed, white_space};

#[test]
fn white_space_agrees_with_std() {
    for code in 0..0x11000u32 {
        if let Some(c) = char::from_u32(code) {
            assert_eq!(white_space(c), c.is_whitespace(), "{code:x}");
        }
    }
}

#[test]
fn trimming_agrees_with_std() {
    for s in ["", "  ", " a ", "\u{3000}x\u{2028}", "\t{\r", "a b", "\u{200b}x"] {
        let t: String = trimmed(&chars_of(s)).into_iter().collect();
        assert_eq!(t, s.trim());
    }
}

#[test]
fn replacing_agrees_with_std() {
    for (s, from, to) in [("aXbXc", "X", "YY"), ("aaaa", "aa", "b"), ("none", "x", "y"), ("xx", "x", "")] {
        assert_eq!(replace_str(s, from, to), s.replace(from, to));
    }
}
