use daplot::text::{
    decimal_string, finish_filename, is_blank, is_float_literal_str, sanitize_char,
    sanitize_filename, same_text, trimmed,
};

#[test]
fn float_literals_match_std() {
    let cases = [
        "0", "1", "-1", "+1", "1.", ".5", "-.5", "1.5e3", "1.5E-3", "1e+3", "1e", "e5", ".",
        "+", "-", "", " 1", "1 ", "inf", "-inf", "+infinity", "Infinity", "INF", "nan", "NaN",
        "-nan", "infin", "nana", "1.2.3", "1e5e5", "0x10", "1_000", "١", "1,5", "--1", "+-1",
        "1e-", "1e+", "12345678901234567890", "3.14159", "1E10", ".e1", "5.e1", ".5e1", "00.00",
    ];
    for c in cases {
        assert_eq!(is_float_literal_str(c), c.parse::<f64>().is_ok(), "case {:?}", c);
    }
}

#[test]
fn trimming_matches_std() {
    let cases = ["", "  ", " a ", "\t\nx y\r\n", "\u{a0}z\u{3000}", "\u{200b}q", "a", "  b"];
    for c in cases {
        assert_eq!(trimmed(c), c.trim(), "case {:?}", c);
        assert_eq!(is_blank(c), c.trim().is_empty(), "case {:?}", c);
    }
}

#[test]
fn decimal_matches_display() {
    for n in [0usize, 1, 9, 10, 11, 99, 100, 12345, usize::MAX] {
        assert_eq!(decimal_string(n), n.to_string());
    }
}

#[test]
fn same_text_compares_characters() {
    assert!(same_text("csv", "csv"));
    assert!(!same_text("csv", "CSV"));
    assert!(!same_text("cs", "csv"));
}

#[test]
fn sanitize_keeps_safe_characters() {
    assert_eq!(sanitize_filename("My plot: 2024/01"), "My plot_ 2024_01");
    assert_eq!(sanitize_filename("  data-set_1  "), "data-set_1");
    assert_eq!(sanitize_filename("Grüße"), "Grüße");
}

#[test]
fn sanitize_falls_back_to_plot() {
    assert_eq!(sanitize_filename(""), "plot");
    assert_eq!(sanitize_filename("   "), "plot");
    assert_eq!(finish_filename("  "), "plot");
}

#[test]
fn sanitize_char_uses_the_alphanumeric_answer() {
    assert_eq!(sanitize_char('a', true), 'a');
    assert_eq!(sanitize_char('a', false), '_');
    assert_eq!(sanitize_char('-', false), '-');
    assert_eq!(sanitize_char(' ', false), ' ');
    assert_eq!(sanitize_char('/', false), '_');
}


#[test]
fn sanitize_is_stable_and_never_longer() {
    let names = [
        "", "   ", "plot", "My plot: 2024/01", "  data-set_1  ", "Grüße", "a/b\\c", " \t x \n",
        "日本語 タイトル", "?!", "_ _",
    ];
    for name in names {
        let r = sanitize_filename(name);
        assert_eq!(sanitize_filename(&r), r, "{:?}", name);
        assert!(r == "plot" || r.chars().count() <= name.chars().count(), "{:?}", name);
    }
    assert_eq!(sanitize_filename("plot"), "plot");
    assert_eq!(sanitize_filename("?!"), "__");
}

#[test]
fn sanitize_replaces_ascii_punctuation() {
    assert_eq!(sanitize_filename(" a/b "), "a_b");
    assert_eq!(sanitize_filename("???"), "___");
    assert_eq!(sanitize_filename("Subplot 1"), "Subplot 1");
    assert_eq!(sanitize_filename("my-data_v2"), "my-data_v2");
}
