use slimes::text::{
    chars_equal, chars_of, copy_range, find_from_exec, join_with_spaces, newline_from_exec,
    next_line, push_decimal, replace_all_exec, trim_chars,
};

fn chars(s: &str) -> Vec<char> {
    s.chars().collect()
}

fn text(v: &[char]) -> String {
    v.iter().collect()
}

#[test]
fn chars_of_keeps_every_character() {
    assert_eq!(chars_of("héllo\u{f36c}"), vec!['h', 'é', 'l', 'l', 'o', '\u{f36c}']);
    assert_eq!(chars_of(""), Vec::<char>::new());
}

#[test]
fn trim_removes_whitespace_at_both_ends() {
    assert_eq!(text(&trim_chars(&chars("  Intel Wi-Fi \t\r\n"))), "Intel Wi-Fi");
    assert_eq!(text(&trim_chars(&chars("\u{a0}\u{3000}x y\u{2009}"))), "x y");
    assert_eq!(text(&trim_chars(&chars(" \t "))), "");
    assert_eq!(text(&trim_chars(&chars("plain"))), "plain");
    let once = trim_chars(&chars("  a b  "));
    assert_eq!(trim_chars(&once), once);
}

#[test]
fn trim_agrees_with_str_trim() {
    for s in ["", " ", "a", " a", "a ", "\u{85}a\u{85}", "\u{200b}a", " \u{1680} b \u{205f}"] {
        assert_eq!(text(&trim_chars(&chars(s))), s.trim());
    }
}

#[test]
fn find_gives_the_first_occurrence() {
    let s = chars("00:02.0 VGA: Intel: UHD");
    assert_eq!(find_from_exec(&s, &chars(": "), 0), Some(11));
    assert_eq!(find_from_exec(&s, &chars(": "), 12), Some(18));
    assert_eq!(find_from_exec(&s, &chars("AMD"), 0), None);
    assert_eq!(find_from_exec(&chars("ab"), &chars("abc"), 0), None);
}

#[test]
fn replace_agrees_with_str_replace() {
    let cases = [
        ("aaaa", "aa", "b"),
        ("Advanced Micro Devices, Inc. [AMD/ATI] Navi", "Advanced Micro Devices, Inc. [AMD/ATI]", "AMD"),
        ("xyz", "q", "r"),
        ("abab", "ab", ""),
        ("", "a", "b"),
    ];
    for (s, from, to) in cases {
        assert_eq!(text(&replace_all_exec(&chars(s), &chars(from), &chars(to))), s.replace(from, to));
    }
}

#[test]
fn lines_agree_with_str_lines() {
    for s in ["a\nb", "a\r\nb\r\n", "a\n\nb\n", "\n", "x\r", "a\rb\nc", "", "one"] {
        let cs = chars(s);
        let mut found: Vec<String> = Vec::new();
        let mut pos = 0;
        while pos < cs.len() {
            let (line, next) = next_line(&cs, pos);
            found.push(text(&line));
            pos = next;
        }
        let expected: Vec<String> = s.lines().map(|l| l.to_string()).collect();
        assert_eq!(found, expected, "lines of {:?}", s);
    }
}

#[test]
fn newline_search_stops_at_the_end() {
    assert_eq!(newline_from_exec(&chars("ab\ncd"), 0), 2);
    assert_eq!(newline_from_exec(&chars("ab\ncd"), 3), 5);
}

#[test]
fn decimal_writing_matches_to_string() {
    for n in [0u64, 7, 10, 99, 4096, 1_000_000, u64::MAX] {
        let mut out = chars("x=");
        push_decimal(n, &mut out);
        assert_eq!(text(&out), format!("x={}", n));
    }
}

#[test]
fn words_are_joined_with_spaces() {
    assert_eq!(text(&join_with_spaces(&vec![chars("ASUSTeK"), chars("Rev 1.0"), chars("PRIME")])), "ASUSTeK Rev 1.0 PRIME");
    assert_eq!(text(&join_with_spaces(&vec![chars("one")])), "one");
    assert_eq!(text(&join_with_spaces(&Vec::new())), "");
}

#[test]
fn comparing_and_copying() {
    assert!(chars_equal(&chars("Default string"), &chars("Default string")));
    assert!(!chars_equal(&chars("Default string"), &chars("Default strinG")));
    assert!(!chars_equal(&chars("a"), &chars("ab")));
    assert_eq!(text(&copy_range(&chars("abcdef"), 2, 4)), "cd");
}
