use myi3stat::text::chars_of;
use myi3stat::text::comes_before;
use myi3stat::text::decimal_string;
use myi3stat::text::digit_of;
use myi3stat::text::digit_str;
use myi3stat::text::lines_of;
use myi3stat::text::pad_left;
use myi3stat::text::parse_i32;
use myi3stat::text::parse_u64;
use myi3stat::text::push_decimal;
use myi3stat::text::read_digits;
use myi3stat::text::split_at;

#[test]
fn chars_of_keeps_every_character() {
    assert_eq!(chars_of("a,ß€"), vec!['a', ',', 'ß', '€']);
    assert_eq!(chars_of(""), Vec::<char>::new());
}

#[test]
fn split_at_keeps_empty_pieces() {
    assert_eq!(split_at("a,b,c", ','), vec!["a", "b", "c"]);
    assert_eq!(split_at("", ','), vec![""]);
    assert_eq!(split_at("a,", ','), vec!["a", ""]);
    assert_eq!(split_at(",a,,b", ','), vec!["", "a", "", "b"]);
    assert_eq!(split_at("no comma", ','), vec!["no comma"]);
}

#[test]
fn split_at_agrees_with_std() {
    for s in ["", ",", "a", "a,b", "x,,y,", ",,", "äö,ü"] {
        let want: Vec<String> = s.split(',').map(String::from).collect();
        assert_eq!(split_at(s, ','), want);
    }
}

#[test]
fn lines_of_drops_line_ends() {
    assert_eq!(lines_of("one\ntwo\n"), vec!["one", "two"]);
    assert_eq!(lines_of("one\r\ntwo"), vec!["one", "two"]);
    assert_eq!(lines_of(""), Vec::<String>::new());
    assert_eq!(lines_of("\n"), vec![""]);
    assert_eq!(lines_of("a\n\nb"), vec!["a", "", "b"]);
    assert_eq!(lines_of("a\r"), vec!["a\r"]);
}

#[test]
fn lines_of_agrees_with_std() {
    for s in ["", "\n", "a", "a\n", "a\r\n", "a\rb\n", "\r\n\r\n", "x\n\ny", "one\r"] {
        let want: Vec<String> = s.lines().map(String::from).collect();
        assert_eq!(lines_of(s), want);
    }
}

#[test]
fn decimal_string_writes_numbers() {
    assert_eq!(decimal_string(0), "0");
    assert_eq!(decimal_string(7), "7");
    assert_eq!(decimal_string(10), "10");
    assert_eq!(decimal_string(1234567890), "1234567890");
    assert_eq!(decimal_string(u64::MAX), "18446744073709551615");
}

#[test]
fn push_decimal_appends() {
    let mut s = String::from("x=");
    push_decimal(&mut s, 405);
    assert_eq!(s, "x=405");
}

#[test]
fn digits_both_ways() {
    for d in 0..10u64 {
        let s = digit_str(d);
        assert_eq!(s, d.to_string());
        assert_eq!(digit_of(s.chars().next().unwrap()), Some(d));
    }
    assert_eq!(digit_of('a'), None);
    assert_eq!(digit_of('٣'), None);
}

#[test]
fn pad_left_fills_with_spaces() {
    assert_eq!(pad_left("7", 4), "   7");
    assert_eq!(pad_left("1234", 4), "1234");
    assert_eq!(pad_left("12345", 4), "12345");
    assert_eq!(pad_left("", 2), "  ");
    assert_eq!(pad_left("ä", 3), "  ä");
}

#[test]
fn read_digits_reads_a_range() {
    let chars = chars_of("ab123cd");
    assert_eq!(read_digits(&chars, 2, 5, 1000), Some(123));
    assert_eq!(read_digits(&chars, 2, 5, 122), None);
    assert_eq!(read_digits(&chars, 2, 5, 123), Some(123));
    assert_eq!(read_digits(&chars, 2, 2, 1000), None);
    assert_eq!(read_digits(&chars, 1, 5, 1000), None);
}

#[test]
fn parse_u64_as_std_does() {
    for s in [
        "0",
        "007",
        "+5",
        "-5",
        "",
        "+",
        "18446744073709551615",
        "18446744073709551616",
        "99999999999999999999999",
        "12a",
        " 1",
        "1 ",
        "++1",
    ] {
        assert_eq!(parse_u64(s), s.parse::<u64>().ok(), "{:?}", s);
    }
    assert_eq!(parse_u64("18446744073709551615"), Some(u64::MAX));
}

#[test]
fn parse_i32_as_std_does() {
    for s in [
        "0",
        "-0",
        "+0",
        "1000",
        "-1",
        "2147483647",
        "2147483648",
        "-2147483648",
        "-2147483649",
        "",
        "-",
        "+",
        "+-1",
        "1.0",
        "1e3",
        "abc",
    ] {
        assert_eq!(parse_i32(s), s.parse::<i32>().ok(), "{:?}", s);
    }
    assert_eq!(parse_i32("-2147483648"), Some(i32::MIN));
}

#[test]
fn comes_before_is_the_order_of_strings() {
    let names = ["", "a", "ab", "b", "B", "a0", "ä", "z", "zz"];
    for a in names {
        for b in names {
            assert_eq!(comes_before(a, b), a < b, "{:?} {:?}", a, b);
        }
    }
}
