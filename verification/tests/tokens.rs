use pseudocode::number::{is_literal_token, is_number_token, is_quoted_token};
use pseudocode::text::{
    char_is_whitespace, count_in, find_char, keyword_matches, rfind_char_end, text_eq, tokenize,
};

#[test]
fn tokenize_splits_on_whitespace() {
    assert_eq!(tokenize("start if x"), vec!["start", "if", "x"]);
    assert_eq!(tokenize("  a\tb\nc \r\n d  "), vec!["a", "b", "c", "d"]);
    assert_eq!(tokenize("one"), vec!["one"]);
    assert_eq!(tokenize("a\u{a0}b\u{3000}c\u{2003}d"), vec!["a", "b", "c", "d"]);
}

#[test]
fn tokenize_of_nothing_is_empty() {
    assert!(tokenize("").is_empty());
    assert!(tokenize(" \n\t ").is_empty());
}

#[test]
fn tokenize_agrees_with_split_whitespace() {
    let samples = [
        "",
        " ",
        "a",
        " a",
        "a ",
        "start\n\tif x == 5\n\t\treturn x\n\tend\nend\n",
        "f(x, y)  -- note --\u{85}z",
        "\u{e9}t\u{e9} \u{4e2d}\u{6587}\u{2028}x\u{200b}y",
        "a\u{1c}b\u{1f}c",
    ];
    for sample in samples {
        let expected: Vec<&str> = sample.split_whitespace().collect();
        assert_eq!(tokenize(sample), expected, "{:?}", sample);
    }
}

#[test]
fn whitespace_is_what_char_says() {
    for code in 0..=0x10FFFFu32 {
        if let Some(c) = char::from_u32(code) {
            assert_eq!(char_is_whitespace(c), c.is_whitespace(), "U+{:04X}", code);
        }
    }
}

#[test]
fn keyword_matches_ignores_ascii_case() {
    assert!(keyword_matches("if", "if"));
    assert!(keyword_matches("IF", "if"));
    assert!(keyword_matches("If", "if"));
    assert!(!keyword_matches("i", "if"));
    assert!(!keyword_matches("iff", "if"));
    assert!(!keyword_matches("", "if"));
    assert!(keyword_matches("", ""));
    assert!(keyword_matches("--", "--"));
    assert!(!keyword_matches("-\u{2d}", "-="));
}

#[test]
fn keyword_matches_agrees_with_to_lowercase() {
    let keywords = [
        "start", "if", "elseif", "else", "end", "assign", "return", "for", "while", "in",
        "function", "inf", "infinity", "nan",
    ];
    let tokens = [
        "start", "START", "Start", "\u{17f}tart", "if", "\u{130}f", "\u{131}f", "IF", "elseif",
        "ELSEIF", "else", "End", "e\u{207f}d", "assign", "A\u{17f}\u{17f}ign", "RETURN", "For",
        "while", "WHILE", "In", "FUNCTION", "\u{212a}", "INF", "Infinity", "NaN", "n\u{e1}n", "",
        "f\u{f6}r", "\u{ff49}\u{ff46}",
    ];
    for keyword in keywords {
        for token in tokens {
            assert_eq!(
                keyword_matches(token, keyword),
                token.to_lowercase() == keyword,
                "{:?} against {:?}",
                token,
                keyword
            );
        }
    }
}

#[test]
fn number_tokens() {
    for token in ["0", "42", "-7", "+7", "3.14", ".5", "5.", "-.5", "1e9", "1E9", "1e+9", "2.5e-3", "5.e3", "007"] {
        assert!(is_number_token(token), "{:?}", token);
    }
    for token in ["", "+", "-", ".", "e5", "1e", "1e+", "1.2.3", "--1", "1x", "x1", "0x10", "1_000", "1,5", "1e5.0", "+-1"] {
        assert!(!is_number_token(token), "{:?}", token);
    }
    for token in ["inf", "INF", "-inf", "+Infinity", "nan", "NaN", "-NAN"] {
        assert!(is_number_token(token), "{:?}", token);
    }
    for token in ["infinit", "in", "nano", "na", "infinityy"] {
        assert!(!is_number_token(token), "{:?}", token);
    }
}

#[test]
fn number_tokens_are_what_parse_takes() {
    let tokens = [
        "", "0", "1", "-1", "+1", "--1", "+-1", "1.", ".1", ".", "-.", "+.5", "1.5", "1.5.5", "1e1",
        "1e", "e1", "1e+1", "1e-1", "1e+-1", "1E10", "1.e1", ".e1", ".5e1", "1e1.5", "inf", "Inf",
        "-inf", "infinity", "INFINITY", "+infinity", "nan", "NAN", "-nan", "+nan", "na", "nanx",
        "infi", "x", "1x", "0x1", "1_0", " 1", "1 ", "\u{661}", "2147483647", "2147483648",
        "-2147483649", "99999999999999999999999999999", "1e400", "0.0000000000000000000000001",
        "+", "-", "e", "E", "1ee1", "1e1e1", "١٢٣", "1\u{ff11}",
    ];
    for token in tokens {
        let expected = token.parse::<i32>().is_ok() || token.parse::<f64>().is_ok();
        assert_eq!(is_number_token(token), expected, "{:?}", token);
    }
}

#[test]
fn quoted_and_literal_tokens() {
    assert!(is_quoted_token("\"a\""));
    assert!(is_quoted_token("\"\""));
    assert!(is_quoted_token("\""));
    assert!(!is_quoted_token("\"a"));
    assert!(!is_quoted_token("a\""));
    assert!(!is_quoted_token(""));
    assert!(!is_quoted_token("'a'"));
    assert!(is_literal_token("\"a\""));
    assert!(is_literal_token("12"));
    assert!(!is_literal_token("a12"));
}

#[test]
fn text_helpers() {
    assert!(text_eq("==", "=="));
    assert!(!text_eq("==", "="));
    assert!(!text_eq("a", "A"));
    assert_eq!(find_char("f(x)", '('), 1);
    assert_eq!(find_char("fx", '('), 2);
    assert_eq!(find_char("", '('), 0);
    assert_eq!(find_char("\u{e9}(", '('), 1);
    assert_eq!(rfind_char_end("f(x)(y)", ')'), 7);
    assert_eq!(rfind_char_end("f(x) y", ')'), 4);
    assert_eq!(rfind_char_end("fx", ')'), 0);
    assert_eq!(count_in("((a)(", '('), 3);
    assert_eq!(count_in("((a)(", ')'), 1);
    assert_eq!(count_in("", ')'), 0);
}
