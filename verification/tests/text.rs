use vacuum::text::{
    compare_bytes, compare_text, joined, contains, eq_ignore_ascii_case, same_text, split_lines,
    to_decimal, Order,
};

#[test]
fn text_order_is_byte_wise() {
    assert_eq!(compare_text("a", "b"), Order::Less);
    assert_eq!(compare_text("b", "a"), Order::Greater);
    assert_eq!(compare_text("a", "a"), Order::Equal);
    assert_eq!(compare_text("", ""), Order::Equal);
    assert_eq!(compare_text("", "a"), Order::Less);
    assert_eq!(compare_text("a", ""), Order::Greater);
    assert_eq!(compare_text("abc", "abd"), Order::Less);
    assert_eq!(compare_text("ab", "abc"), Order::Less);
    assert_eq!(compare_text("abc", "ab"), Order::Greater);
    assert_eq!(compare_text("B", "a"), Order::Less);
    assert_eq!(compare_text("file10", "file2"), Order::Less);
    assert_eq!(compare_text("z", "\u{e9}"), Order::Less);
}

#[test]
fn text_order_agrees_with_the_standard_order_of_strings() {
    let samples = [
        "", "a", "A", "ab", "b", "a/b", "a-b", "a.b", "0", "10", "9", "\u{e9}", "\u{ffff}",
        "\u{10000}", "~", " ",
    ];
    for left in samples {
        for right in samples {
            let expected = if left < right {
                Order::Less
            } else if left == right {
                Order::Equal
            } else {
                Order::Greater
            };
            assert_eq!(compare_text(left, right), expected);
            assert_eq!(same_text(left, right), left == right);
        }
    }
}

#[test]
fn bytes_are_compared_unsigned() {
    assert_eq!(compare_bytes(&[0x7f], &[0x80]), Order::Less);
    assert_eq!(compare_bytes(&[0xff], &[0x00, 0x00]), Order::Greater);
    assert_eq!(compare_bytes(&[], &[]), Order::Equal);
    assert_eq!(compare_bytes(&[1, 2, 3], &[1, 2, 3]), Order::Equal);
}

#[test]
fn ascii_case_is_ignored_and_nothing_else() {
    assert!(eq_ignore_ascii_case(".csv", ".CSV"));
    assert!(eq_ignore_ascii_case("AbC", "aBc"));
    assert!(eq_ignore_ascii_case("", ""));
    assert!(!eq_ignore_ascii_case("a", "b"));
    assert!(!eq_ignore_ascii_case("a", "aa"));
    assert!(!eq_ignore_ascii_case("@", "`"));
    assert!(!eq_ignore_ascii_case("[", "{"));
    assert!(!eq_ignore_ascii_case("\u{e9}", "\u{c9}"));
    assert!(eq_ignore_ascii_case("z\u{e9}", "Z\u{e9}"));
}

#[test]
fn substrings_are_found_wherever_they_stand() {
    assert!(contains("abc123", "abc"));
    assert!(contains("abc123", "123"));
    assert!(contains("abc123", "c1"));
    assert!(contains("abc123", ""));
    assert!(contains("", ""));
    assert!(contains("abc", "abc"));
    assert!(!contains("abc", "abcd"));
    assert!(!contains("", "a"));
    assert!(!contains("abc123", "321"));
    assert!(contains("aaab", "aab"));
    assert!(!contains("ababab", "abba"));
    assert!(contains("gr\u{fc}n", "\u{fc}"));
}

#[test]
fn concatenation_joins_in_order() {
    assert_eq!(joined("ab", "cd"), "abcd");
    assert_eq!(joined("", "x"), "x");
    assert_eq!(joined("x", ""), "x");
    assert_eq!(joined("", ""), "");
}

#[test]
fn numbers_are_written_in_decimal() {
    assert_eq!(to_decimal(0), "0");
    assert_eq!(to_decimal(7), "7");
    assert_eq!(to_decimal(10), "10");
    assert_eq!(to_decimal(1909), "1909");
    assert_eq!(to_decimal(1_000_000), "1000000");
    assert_eq!(to_decimal(u64::MAX), "18446744073709551615");
}

#[test]
fn lines_end_at_line_feeds() {
    assert_eq!(split_lines(""), Vec::<String>::new());
    assert_eq!(split_lines("one"), vec!["one"]);
    assert_eq!(split_lines("one\n"), vec!["one"]);
    assert_eq!(split_lines("one\ntwo"), vec!["one", "two"]);
    assert_eq!(split_lines("one\ntwo\n"), vec!["one", "two"]);
    assert_eq!(split_lines("\n"), vec![""]);
    assert_eq!(split_lines("\n\n"), vec!["", ""]);
    assert_eq!(split_lines("a\n\nb"), vec!["a", "", "b"]);
}

#[test]
fn a_carriage_return_before_a_line_feed_is_dropped() {
    assert_eq!(split_lines("one\r\ntwo\r\n"), vec!["one", "two"]);
    assert_eq!(split_lines("one\r\n"), vec!["one"]);
    assert_eq!(split_lines("\r\n"), vec![""]);
    assert_eq!(split_lines("a\r\r\n"), vec!["a\r"]);
    assert_eq!(split_lines("a\rb\n"), vec!["a\rb"]);
    assert_eq!(split_lines("last\r"), vec!["last\r"]);
    assert_eq!(split_lines("\r"), vec!["\r"]);
}

#[test]
fn lines_are_split_as_the_standard_library_splits_them() {
    let samples = [
        "",
        "a",
        "a\n",
        "a\r\n",
        "a\nb\r\nc",
        "\n\n\n",
        "\r\n\r\n",
        "a\r",
        "\r",
        "x\r\r\ny",
        "tail\n\r",
        "{\"a\":1}\n{\"b\":2}\n",
    ];
    for sample in samples {
        let expected = sample.lines().map(str::to_string).collect::<Vec<_>>();
        assert_eq!(split_lines(sample), expected);
    }
}
