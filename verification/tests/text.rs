use dut_fleet::order::rank;
use dut_fleet::order::Rank;
use dut_fleet::text::char_is_space;
use dut_fleet::text::chars_of;
use dut_fleet::text::parse_u16;
use dut_fleet::text::same_text;
use dut_fleet::text::split_range;
use dut_fleet::text::trim;
use dut_fleet::text::trim_range;

fn chars(s: &str) -> Vec<char> {
    s.chars().collect()
}

#[test]
fn whitespace_is_what_unicode_says() {
    for c in [' ', '\t', '\n', '\u{b}', '\u{c}', '\r', '\u{85}', '\u{a0}', '\u{1680}', '\u{2000}',
        '\u{200a}', '\u{2028}', '\u{2029}', '\u{202f}', '\u{205f}', '\u{3000}'] {
        assert!(char_is_space(c));
        assert!(c.is_whitespace());
    }
    for c in ['a', '0', '_', '\u{8}', '\u{e}', '\u{200b}', '\u{feff}', '\u{1f}'] {
        assert!(!char_is_space(c));
        assert!(!c.is_whitespace());
    }
}

#[test]
fn whitespace_agrees_with_std_on_every_char() {
    let mut code: u32 = 0;
    while code <= 0x10FFFF {
        if let Some(c) = char::from_u32(code) {
            assert_eq!(char_is_space(c), c.is_whitespace());
        }
        code += 1;
    }
}

#[test]
fn chars_of_keeps_every_char() {
    assert_eq!(chars_of(""), Vec::<char>::new());
    assert_eq!(chars_of("a\u{e9}\u{1f600}z"), vec!['a', '\u{e9}', '\u{1f600}', 'z']);
}

#[test]
fn trim_removes_both_ends_only() {
    assert_eq!(trim("  hello \n"), "hello");
    assert_eq!(trim("a b"), "a b");
    assert_eq!(trim("\u{3000}x y\u{a0}"), "x y");
    assert_eq!(trim(""), "");
    assert_eq!(trim(" \t\r\n"), "");
    assert_eq!(trim("x"), "x");
    assert_eq!(trim("\u{e9}t\u{e9} "), "\u{e9}t\u{e9}");
}

#[test]
fn trim_range_gives_bounds() {
    let v = chars("ab  cd  ef");
    assert_eq!(trim_range(&v, 2, 8), (4, 6));
    assert_eq!(trim_range(&v, 2, 4), (4, 4));
    assert_eq!(trim_range(&v, 0, 10), (0, 10));
    assert_eq!(trim_range(&v, 5, 5), (5, 5));
}

#[test]
fn split_range_has_one_piece_more_than_separators() {
    let v = chars("a,bc,,d");
    assert_eq!(split_range(&v, 0, 7, ','), vec![(0, 1), (2, 4), (5, 5), (6, 7)]);
    assert_eq!(split_range(&v, 0, 0, ','), vec![(0, 0)]);
    assert_eq!(split_range(&v, 1, 2, ','), vec![(1, 1), (2, 2)]);
    assert_eq!(split_range(&v, 2, 4, ','), vec![(2, 4)]);
}

#[test]
fn parse_u16_reads_decimal_numerals() {
    let read = |s: &str| {
        let v = chars(s);
        parse_u16(&v, 0, v.len())
    };
    assert_eq!(read("0"), Some(0));
    assert_eq!(read("22"), Some(22));
    assert_eq!(read("0022"), Some(22));
    assert_eq!(read("65535"), Some(65535));
    assert_eq!(read("65536"), None);
    assert_eq!(read("99999999999999999999"), None);
    assert_eq!(read(""), None);
    assert_eq!(read("+1"), None);
    assert_eq!(read("-1"), None);
    assert_eq!(read("12a"), None);
    assert_eq!(read(" 12"), None);
    assert_eq!(read("\u{661}"), None);
}

#[test]
fn parse_u16_reads_a_part_of_the_text() {
    let v = chars("host:2222/x");
    assert_eq!(parse_u16(&v, 5, 9), Some(2222));
    assert_eq!(parse_u16(&v, 5, 11), None);
    assert_eq!(parse_u16(&v, 5, 5), None);
}

#[test]
fn same_text_compares_by_chars() {
    assert!(same_text("", ""));
    assert!(same_text("dut_id", "dut_id"));
    assert!(!same_text("dut_id", "dut_iD"));
    assert!(!same_text("dut", "dut_id"));
    assert!(!same_text("dut_id", "dut"));
}

#[test]
fn rank_orders_by_code_point() {
    assert_eq!(rank("a", "b"), Rank::Before);
    assert_eq!(rank("b", "a"), Rank::After);
    assert_eq!(rank("abc", "abc"), Rank::Same);
    assert_eq!(rank("", ""), Rank::Same);
    assert_eq!(rank("", "a"), Rank::Before);
    assert_eq!(rank("ab", "abc"), Rank::Before);
    assert_eq!(rank("abc", "ab"), Rank::After);
    assert_eq!(rank("Z", "a"), Rank::Before);
    assert_eq!(rank("a10", "a9"), Rank::Before);
    assert_eq!(rank("\u{e9}", "z"), Rank::After);
    assert_eq!(rank("\u{ffff}", "\u{10000}"), Rank::Before);
}

#[test]
fn rank_agrees_with_the_order_of_strings() {
    let words = ["", "a", "ab", "b", "B", "dut_1", "dut_10", "dut_2", "\u{e9}", "\u{10000}", "\u{ffff}"];
    for x in words {
        for y in words {
            let expected = match x.cmp(y) {
                std::cmp::Ordering::Less => Rank::Before,
                std::cmp::Ordering::Equal => Rank::Same,
                std::cmp::Ordering::Greater => Rank::After,
            };
            assert_eq!(rank(x, y), expected);
        }
    }
}
