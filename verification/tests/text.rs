use acumen::order::precedes;
use acumen::scan::{find_byte, find_char};
use acumen::table::Table;
use acumen::text::{
    chars_of, cut_n, cut_once, first_line, is_whitespace, parse_unsigned, same_text, string_of,
    stripped, trimmed,
};

fn chars(text: &str) -> Vec<char> {
    text.chars().collect()
}

fn text(chars: &[char]) -> String {
    chars.iter().collect()
}

#[test]
fn white_space_agrees_with_the_standard_library() {
    for code in 0..=0x10ffffu32 {
        if let Some(c) = char::from_u32(code) {
            assert_eq!(is_whitespace(c), c.is_whitespace(), "U+{:04X}", code);
        }
    }
}

#[test]
fn characters_and_back() {
    assert_eq!(chars_of("h\u{e9}llo \u{1f600}"), chars("h\u{e9}llo \u{1f600}"));
    assert_eq!(chars_of(""), Vec::<char>::new());
    assert_eq!(string_of(&chars("h\u{e9}llo \u{1f600}")), "h\u{e9}llo \u{1f600}");
    assert_eq!(string_of(&[]), "");
}

#[test]
fn trimming() {
    for sample in ["  a b  ", "\t\r\nx\u{a0}", "", "   ", "x", "\u{3000}y z\u{2003}"] {
        assert_eq!(text(trimmed(&chars(sample))), sample.trim());
    }
}

#[test]
fn stripping() {
    for sample in ["\"\"a\"b\"", "\"", "", "a", "\"a", "a\"\"", " \"a\" "] {
        assert_eq!(text(stripped(&chars(sample), '"')), sample.trim_matches('"'));
    }
}

#[test]
fn cutting_once() {
    let sample = chars("key=a=b");
    let (before, after) = cut_once(&sample, '=').unwrap();
    assert_eq!((text(before), text(after)), ("key".to_string(), "a=b".to_string()));
    assert!(cut_once(&chars("key"), '=').is_none());
    let sample = chars("=");
    let (before, after) = cut_once(&sample, '=').unwrap();
    assert_eq!((text(before), text(after)), (String::new(), String::new()));
}

#[test]
fn cutting_into_fields() {
    for sample in ["a:b:c", "a:b:c:d", "", ":", "abc", "a::b:"] {
        for n in 0..5usize {
            let expected: Vec<String> = sample.splitn(n, ':').map(String::from).collect();
            let sample = chars(sample);
            let got: Vec<String> = cut_n(&sample, ':', n).iter().map(|piece| text(piece)).collect();
            assert_eq!(got, expected);
        }
    }
}

#[test]
fn lines_agree_with_the_standard_library() {
    let samples = ["a\nb\n", "a\r\nb", "a\n\nb\r", "\n", "\r\n\r\n", "a\rb\n", "x", "\r", "a\n\r"];
    for sample in samples {
        let expected: Vec<String> = sample.lines().map(String::from).collect();
        let all = chars(sample);
        let mut rest: &[char] = &all;
        let mut got = Vec::new();
        while !rest.is_empty() {
            let (line, after) = first_line(rest);
            got.push(text(line));
            rest = after;
        }
        assert_eq!(got, expected, "{:?}", sample);
    }
}

#[test]
fn numbers() {
    assert_eq!(parse_unsigned(&chars("0"), 10), Some(0));
    assert_eq!(parse_unsigned(&chars("10"), 10), Some(10));
    assert_eq!(parse_unsigned(&chars("11"), 10), None);
    assert_eq!(parse_unsigned(&chars("+7"), 10), Some(7));
    assert_eq!(parse_unsigned(&chars("007"), 10), Some(7));
    assert_eq!(parse_unsigned(&chars(""), 10), None);
    assert_eq!(parse_unsigned(&chars("+"), 10), None);
    assert_eq!(parse_unsigned(&chars("-1"), 10), None);
    assert_eq!(parse_unsigned(&chars("1 "), 10), None);
    assert_eq!(parse_unsigned(&chars("\u{664}"), 10), None);
    assert_eq!(parse_unsigned(&chars("18446744073709551615"), u64::MAX), Some(u64::MAX));
    assert_eq!(parse_unsigned(&chars("18446744073709551616"), u64::MAX), None);
    assert_eq!(parse_unsigned(&chars("4294967295"), 4294967295), Some(4294967295));
}

#[test]
fn numbers_agree_with_the_standard_library() {
    for sample in ["0", "42", "+42", "-42", "", "+", "4294967295", "4294967296", "1e3", "0x10", " 1"] {
        assert_eq!(
            parse_unsigned(&chars(sample), u32::MAX as u64),
            sample.parse::<u32>().ok().map(u64::from),
            "{:?}",
            sample
        );
    }
}

#[test]
fn same_text_compares_contents() {
    assert!(same_text("abc", "abc"));
    assert!(same_text("", ""));
    assert!(!same_text("abc", "abd"));
    assert!(!same_text("abc", "ab"));
    assert!(!same_text("\u{e9}", "e"));
}

#[test]
fn finding() {
    assert_eq!(find_byte(b"a:b:c", b':', 0), 1);
    assert_eq!(find_byte(b"a:b:c", b':', 2), 3);
    assert_eq!(find_byte(b"a:b:c", b':', 4), 5);
    assert_eq!(find_byte(b"", b':', 0), 0);
    assert_eq!(find_char(&chars("a=b"), '=', 0), 1);
    assert_eq!(find_char(&chars("a=b"), '=', 2), 3);
}

#[test]
fn table_binds_each_name_once() {
    let table: Table<usize> = Table::new();
    assert_eq!(table.get("a"), None);
    let table = table.insert("a".to_string(), 1);
    let table = table.insert("b".to_string(), 2);
    let table = table.insert("a".to_string(), 3);
    assert_eq!(table.get("a"), Some(&3));
    assert_eq!(table.get("b"), Some(&2));
    assert_eq!(table.get("c"), None);
    assert_eq!(format!("{:?}", table), "Table { entries: [(\"a\", 3), (\"b\", 2)] }");
}

#[test]
fn table_keeps_the_names_in_order() {
    let mut table: Table<usize> = Table::new();
    for (value, name) in ["pear", "apple", "fig", "apple", "Zebra", "", "figs"].iter().enumerate() {
        table = table.insert(name.to_string(), value);
    }
    assert_eq!(
        format!("{:?}", table),
        "Table { entries: [(\"\", 5), (\"Zebra\", 4), (\"apple\", 3), (\"fig\", 2), \
         (\"figs\", 6), (\"pear\", 0)] }"
    );
    assert_eq!(table.get("apple"), Some(&3));
    assert_eq!(table.get(""), Some(&5));
    assert_eq!(table.get("fi"), None);
}

#[test]
fn order_agrees_with_the_standard_library() {
    let samples =
        ["", "a", "ab", "b", "B", "\u{e9}", "e", "\u{10000}", "\u{ffff}", "ab\u{0}", "aa"];
    for a in samples {
        for b in samples {
            assert_eq!(precedes(a, b), a < b, "{:?} {:?}", a, b);
        }
    }
}
