use fastchat_tui::text::{contains, parse_u16_chars, split_lines, starts_with, trim_chars};
use fastchat_tui::time::{is_earlier, Timestamp};

fn cs(s: &str) -> Vec<char> {
    s.chars().collect()
}

fn texts(v: Vec<Vec<char>>) -> Vec<String> {
    v.into_iter().map(|l| l.into_iter().collect()).collect()
}

#[test]
fn split_lines_matches_str_lines() {
    for s in ["", "a", "a\n", "a\r\nb", "\n\nx\r", "one\ntwo\n\nthree\r\n"] {
        let want: Vec<String> = s.lines().map(|l| l.to_string()).collect();
        assert_eq!(texts(split_lines(&cs(s))), want, "input {:?}", s);
    }
}

#[test]
fn trim_matches_str_trim() {
    for s in ["", "  a b \t", "\u{3000}x\u{2028}", "   "] {
        let got: String = trim_chars(&cs(s)).into_iter().collect();
        assert_eq!(got, s.trim());
    }
}

#[test]
fn prefix_and_infix() {
    assert!(starts_with(&cs("data: x"), &cs("data: ")));
    assert!(!starts_with(&cs("dat"), &cs("data")));
    assert!(contains(&cs("My User name"), &cs("User")));
    assert!(!contains(&cs("Us"), &cs("User")));
}

#[test]
fn u16_parsing_follows_str_parse() {
    for s in ["0", "42", "+7", "65535", "65536", "", "+", "-1", "1a", "007"] {
        assert_eq!(parse_u16_chars(&cs(s)), s.parse::<u16>().ok(), "input {:?}", s);
    }
}

#[test]
fn timestamps_order() {
    let a = Timestamp { secs: 5, nanos: 10 };
    let b = Timestamp { secs: 5, nanos: 11 };
    let c = Timestamp { secs: 6, nanos: 0 };
    assert!(is_earlier(a, b));
    assert!(is_earlier(b, c));
    assert!(!is_earlier(b, a));
    assert!(!is_earlier(a, a));
}
