use panty::text::{lines, parse_u64, split_pieces, split_terminator, str_eq, trim, u64_to_decimal};

#[test]
fn trim_strips_white_space_at_both_ends() {
    assert_eq!(trim("  12345\n"), "12345");
    assert_eq!(trim("\t a b \r\n"), "a b");
    assert_eq!(trim("   "), "");
    assert_eq!(trim(""), "");
    assert_eq!(trim("\u{3000}x\u{a0}"), "x");
}

#[test]
fn parse_u64_reads_decimal_numbers() {
    assert_eq!(parse_u64("0"), Some(0));
    assert_eq!(parse_u64("12345"), Some(12345));
    assert_eq!(parse_u64("+7"), Some(7));
    assert_eq!(parse_u64("18446744073709551615"), Some(u64::MAX));
    assert_eq!(parse_u64("18446744073709551616"), None);
    assert_eq!(parse_u64(""), None);
    assert_eq!(parse_u64("+"), None);
    assert_eq!(parse_u64("-1"), None);
    assert_eq!(parse_u64("12a"), None);
    assert_eq!(parse_u64(" 1"), None);
}

#[test]
fn parse_u64_agrees_with_std() {
    for s in ["0", "42", "+42", "", "+", "-0", "007", "99999999999999999999", "1 2"] {
        assert_eq!(parse_u64(s), s.parse::<u64>().ok(), "on {:?}", s);
    }
}

#[test]
fn decimal_writing_matches_to_string() {
    for n in [0u64, 7, 10, 12345, u64::MAX] {
        assert_eq!(u64_to_decimal(n), n.to_string());
        assert_eq!(parse_u64(&u64_to_decimal(n)), Some(n));
    }
}

#[test]
fn split_pieces_cuts_at_every_separator() {
    assert_eq!(split_pieces("a,b,,c", ','), vec!["a", "b", "", "c"]);
    assert_eq!(split_pieces("", ','), vec![""]);
    assert_eq!(split_pieces("a,", ','), vec!["a", ""]);
}

#[test]
fn split_terminator_drops_a_last_empty_piece() {
    assert_eq!(split_terminator("a,b,", ','), vec!["a", "b"]);
    assert_eq!(split_terminator("a,b", ','), vec!["a", "b"]);
    assert_eq!(split_terminator("", ','), Vec::<String>::new());
    assert_eq!(split_terminator(",", ','), vec![""]);
    for s in ["a,b,", "", ",", ",,", "x"] {
        let std: Vec<String> = s.split_terminator(',').map(|p| p.to_string()).collect();
        assert_eq!(split_terminator(s, ','), std);
    }
}

#[test]
fn lines_agree_with_std() {
    assert_eq!(lines("GVIM\nGVIM1\n"), vec!["GVIM", "GVIM1"]);
    assert_eq!(lines("a\r\nb"), vec!["a", "b"]);
    for s in ["", "\n", "a", "a\n", "a\r\n\r\nb", "a\rb", "x\n\ny\n", "end\r"] {
        let std: Vec<String> = s.lines().map(|p| p.to_string()).collect();
        assert_eq!(lines(s), std, "on {:?}", s);
    }
}

#[test]
fn str_eq_compares_characters() {
    assert!(str_eq("gvim", "gvim"));
    assert!(!str_eq("gvim", "Gvim"));
    assert!(!str_eq("gvim", "gvim "));
}
