use keryx_miner::text::{chars_of, contains, lines, push_decimal, push_quoted, text_of};

fn decimal(n: u64) -> String {
    let mut s = String::new();
    push_decimal(&mut s, n);
    s
}

#[test]
fn decimals_have_no_leading_zeros() {
    for n in [0u64, 7, 10, 99, 100, 65536, u64::MAX] {
        assert_eq!(decimal(n), format!("{n}"));
    }
}

#[test]
fn text_and_characters_agree() {
    let v = chars_of("a…—\"");
    assert_eq!(v, vec!['a', '…', '—', '"']);
    assert_eq!(text_of(&v), "a…—\"");
}

#[test]
fn contains_looks_everywhere() {
    for (hay, needle) in [
        ("keryx_miner::pom_gpu", "pom"),
        ("pom", "pom"),
        ("po", "pom"),
        ("hyper::client", "slm"),
        ("xslm", "slm"),
        ("", ""),
        ("abc", ""),
        ("aab", "ab"),
    ] {
        assert_eq!(contains(hay, needle), hay.contains(needle), "{hay} {needle}");
    }
}

#[test]
fn lines_end_as_they_do_in_texts() {
    for s in ["", "\n", "a", "a\n", "a\nb", "a\r\nb\r\n", "a\r", "a\r\r\n\n", "\r\n\r", "a\rb\n"] {
        let expected: Vec<String> = s.lines().map(|l| l.to_string()).collect();
        assert_eq!(lines(s), expected, "{s:?}");
    }
}

#[test]
fn an_added_line_is_the_last() {
    let log = "one\ntwo\n";
    let mut expected = lines(log);
    expected.push("three".to_string());
    assert_eq!(lines(&format!("{log}three\n")), expected);
}

#[test]
fn quoting_protects_quotes_and_backslashes() {
    let mut s = "x".to_string();
    push_quoted(&mut s, "a\"b\\c\\\"");
    assert_eq!(s, r#"x"a\"b\\c\\\"""#);
}

/// What stands in the quotation marks that `s` begins with, and what comes behind them.
fn read_quoted(s: &str) -> Option<(String, String)> {
    let mut rest = s.strip_prefix('"')?.chars();
    let mut text = String::new();
    loop {
        match rest.next()? {
            '"' => return Some((text, rest.collect())),
            '\\' => text.push(rest.next()?),
            c => text.push(c),
        }
    }
}

#[test]
fn quoted_text_can_be_read_back() {
    for text in ["", "\\", "\"", "\\\"", "plain", "\"\"\\\\", "a\\nb…"] {
        let mut s = String::new();
        push_quoted(&mut s, text);
        s.push_str(",\"x\"]");
        assert_eq!(read_quoted(&s), Some((text.to_string(), ",\"x\"]".to_string())));
    }
}
