use hack_toolchain::text::{
    parse_u16, push_binary, push_decimal, push_decimal_usize, str_eq, str_slice, NumberError,
};

#[test]
fn decimal_numerals() {
    for n in [0u16, 1, 9, 10, 11, 99, 100, 101, 4096, 9999, 10000, 32767, 32768, 65535] {
        let mut out = String::from("x=");
        push_decimal(&mut out, n);
        assert_eq!(out, format!("x={}", n));
    }
    for n in [0usize, 7, 10, 123456789, usize::MAX] {
        let mut out = String::new();
        push_decimal_usize(&mut out, n);
        assert_eq!(out, n.to_string());
    }
}

#[test]
fn binary_numerals() {
    for n in [0u16, 1, 2, 5, 255, 256, 8191, 8192, 32767, 32768, 65535] {
        let mut out = String::new();
        push_binary(&mut out, n, 16);
        assert_eq!(out, format!("{:016b}", n));
        let mut low = String::from("111");
        push_binary(&mut low, n, 13);
        assert_eq!(low, format!("111{:013b}", n & 0x1fff));
    }
    let mut none = String::from("-");
    push_binary(&mut none, 65535, 0);
    assert_eq!(none, "-");
}

#[test]
fn numbers_are_read_as_std_reads_them() {
    let cases = [
        "", "0", "7", "007", "+7", "+", "-", "-7", "++7", "+-7", "65535", "65536", "65540",
        "99999", "100000", "6553x", "65536x", "99999x", "x", "1 2", " 1", "1 ", "12a", "0x10",
        "65535\u{e9}", "\u{663}", "000000000000065535", "+000065536",
    ];
    for text in cases {
        let expected = text.parse::<u16>().map_err(|e| e.to_string());
        let got = parse_u16(text).map_err(|e| e.describe().to_string());
        assert_eq!(got, expected, "{:?}", text);
    }
    assert_eq!(parse_u16(""), Err(NumberError::Empty));
    assert_eq!(parse_u16("1x"), Err(NumberError::InvalidDigit));
    assert_eq!(parse_u16("65536"), Err(NumberError::PosOverflow));
    assert_eq!(parse_u16("65535"), Ok(65535));
}

#[test]
fn strings_are_compared_and_cut() {
    assert!(str_eq("", ""));
    assert!(str_eq("D+1", "D+1"));
    assert!(!str_eq("D+1", "D+"));
    assert!(!str_eq("D+1", "D-1"));
    assert!(!str_eq("a", ""));
    assert!(str_eq("h\u{e9}", "h\u{e9}"));
    assert!(!str_eq("h\u{e9}", "h\u{e8}"));
    let text = "h\u{e9}llo world";
    assert_eq!(str_slice(text, 0, 0), "");
    assert_eq!(str_slice(text, 0, 6), "h\u{e9}llo");
    assert_eq!(str_slice(text, 1, 3), "\u{e9}");
    assert_eq!(str_slice(text, 7, 12), "world");
    assert_eq!(str_slice(text, 12, 12), "");
}
