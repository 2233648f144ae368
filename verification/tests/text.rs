use gtm_sync::text::{
    chars_of, ends_with_chars, format_i64, format_u64, padded_left, padded_right, parse_i32, parse_i64,
    replace_arrows, split_chars, string_of, trim_end_chars,
};

fn cs(s: &str) -> Vec<char> {
    s.chars().collect()
}

fn st(v: &[char]) -> String {
    v.iter().collect()
}

#[test]
fn chars_round_trip() {
    let s = "héllo, wörld ✓";
    assert_eq!(string_of(&chars_of(s)), s);
}

#[test]
fn split_keeps_empty_pieces() {
    let parts: Vec<String> = split_chars(&cs("a,,b,"), ',').iter().map(|p| st(p)).collect();
    assert_eq!(parts, vec!["a", "", "b", ""]);
    let parts: Vec<String> = split_chars(&cs(""), ',').iter().map(|p| st(p)).collect();
    assert_eq!(parts, vec![""]);
    for s in ["x:y:z", ":", "abc", "::a::"] {
        let ours: Vec<String> = split_chars(&cs(s), ':').iter().map(|p| st(p)).collect();
        let std: Vec<String> = s.split(':').map(|p| p.to_string()).collect();
        assert_eq!(ours, std);
    }
}

#[test]
fn trim_end_removes_only_trailing() {
    assert_eq!(st(&trim_end_chars(&cs("//a//b///"), '/')), "//a//b");
    assert_eq!(st(&trim_end_chars(&cs("////"), '/')), "");
}

#[test]
fn ends_with_suffix() {
    assert!(ends_with_chars(&cs("x.app"), &cs(".app")));
    assert!(!ends_with_chars(&cs("app"), &cs(".app")));
    assert!(ends_with_chars(&cs("x"), &cs("")));
}

#[test]
fn replace_arrows_left_to_right() {
    for s in ["a->b", "-->", "->->", "->>", "-", "", "no arrow"] {
        assert_eq!(st(&replace_arrows(&cs(s))), s.replace("->", ":"));
    }
}

#[test]
fn parse_like_std() {
    for s in ["0", "+5", "-0", "-", "+", "", " 1", "1 ", "12a", "9223372036854775807", "9223372036854775808",
        "-9223372036854775808", "-9223372036854775809", "00000000000000000000000042", "2147483648", "-2147483648",
        "99999999999999999999999999999", "٣"] {
        assert_eq!(parse_i64(&cs(s)), s.parse::<i64>().ok(), "{}", s);
        assert_eq!(parse_i32(&cs(s)), s.parse::<i32>().ok(), "{}", s);
    }
}

#[test]
fn format_like_std() {
    for v in [0i64, 7, 10, -1, -10, 1234567890, i64::MAX, i64::MIN] {
        assert_eq!(st(&format_i64(v)), v.to_string());
    }
    for v in [0u64, 9, 100, u64::MAX] {
        assert_eq!(st(&format_u64(v)), v.to_string());
    }
}

#[test]
fn padding_like_std() {
    assert_eq!(st(&padded_left(&cs("7"), 3)), format!("{:>3}", "7"));
    assert_eq!(st(&padded_left(&cs("1234"), 3)), "1234");
    assert_eq!(st(&padded_right(&cs("ab"), 4)), format!("{:<4}", "ab"));
    assert_eq!(st(&padded_right(&cs("äö"), 3)), format!("{:<3}", "äö"));
}
