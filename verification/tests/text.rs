use droiddock::numbers::{append_decimal, append_hex_fixed, parse_hex, parse_i64, parse_u64};
use droiddock::text::{
    contains, find_last, from_chars, is_whitespace, join, replace_char, split, split_lines,
    split_words, starts_with, strip, to_chars, trim, Separator,
};

const SAMPLES: [&str; 16] = [
    "",
    " ",
    "a",
    "  a  b\tc\n",
    "one\ntwo\r\nthree",
    "one\n\ntwo\n",
    "\n",
    "\r\n\r\n",
    "tail\r",
    "a\u{a0}b\u{2003}c\u{3000}",
    "\u{85}x\u{1680}y\u{2028}z\u{2029}",
    "no\u{200b}break",
    "x\u{b}y\u{c}z",
    "mid\rdle\n",
    "/sdcard/DCIM/Camera/",
    "emoji \u{1f600} and accents \u{e9}\u{e8}",
];

fn chars(s: &str) -> Vec<char> {
    s.chars().collect()
}

fn texts(v: Vec<Vec<char>>) -> Vec<String> {
    v.into_iter().map(|p| p.into_iter().collect()).collect()
}

#[test]
fn characters_go_there_and_back() {
    for s in SAMPLES {
        assert_eq!(to_chars(s), chars(s));
        assert_eq!(from_chars(&chars(s)), s);
    }
}

#[test]
fn white_space_is_what_the_standard_library_calls_so() {
    for n in 0..0x3100u32 {
        if let Some(c) = char::from_u32(n) {
            assert_eq!(is_whitespace(c), c.is_whitespace(), "{:x}", n);
        }
    }
    assert!(!is_whitespace('\u{feff}'));
    assert!(!is_whitespace('\u{10ffff}'));
}

#[test]
fn lines_are_those_of_the_standard_library() {
    for s in SAMPLES {
        let expected: Vec<String> = s.lines().map(|l| l.to_string()).collect();
        assert_eq!(texts(split_lines(&chars(s))), expected, "{:?}", s);
    }
}

#[test]
fn words_are_those_of_the_standard_library() {
    for s in SAMPLES {
        let expected: Vec<String> = s.split_whitespace().map(|l| l.to_string()).collect();
        assert_eq!(texts(split_words(&chars(s))), expected, "{:?}", s);
    }
}

#[test]
fn trimming_is_that_of_the_standard_library() {
    for s in SAMPLES {
        assert_eq!(trim(&chars(s)).into_iter().collect::<String>(), s.trim(), "{:?}", s);
        assert_eq!(
            strip(&chars(s), Separator::Char('/')).into_iter().collect::<String>(),
            s.trim_matches('/'),
            "{:?}",
            s
        );
    }
}

#[test]
fn pieces_are_those_of_the_standard_library() {
    for s in SAMPLES {
        for sep in ['/', ' ', '\n', 'a'] {
            let expected: Vec<String> = s.split(sep).map(|l| l.to_string()).collect();
            let got = split(&chars(s), Separator::Char(sep));
            assert_eq!(texts(got), expected, "{:?} {:?}", s, sep);
            assert_eq!(
                join(&split(&chars(s), Separator::Char(sep)), &[sep]).into_iter().collect::<String>(),
                s
            );
        }
    }
    assert_eq!(texts(split(&chars("a b\tc"), Separator::Whitespace)), vec!["a", "b", "c"]);
    assert_eq!(join(&[chars("a"), chars(""), chars("b")], &chars(", ")), chars("a, , b"));
    assert_eq!(join(&[], &chars(", ")), chars(""));
}

#[test]
fn finding_and_replacing() {
    for s in SAMPLES {
        for needle in ["", "a", "\n", "two", "DCIM/", "xyz", "\r\n\r\n"] {
            assert_eq!(contains(&chars(s), &chars(needle)), s.contains(needle), "{:?} {:?}", s, needle);
            assert_eq!(
                starts_with(&chars(s), &chars(needle)),
                s.starts_with(needle),
                "{:?} {:?}",
                s,
                needle
            );
        }
        for c in ['a', '/', '\n'] {
            assert_eq!(find_last(&chars(s), c), s.chars().collect::<Vec<char>>().iter().rposition(|x| *x == c));
            assert_eq!(
                replace_char(&chars(s), c, &chars("<>")).into_iter().collect::<String>(),
                s.replace(c, "<>")
            );
        }
    }
}

#[test]
fn numbers_are_read_as_the_standard_library_reads_them() {
    let samples = [
        "", "0", "7", "+7", "-7", "--7", "+-7", "007", "18446744073709551615",
        "18446744073709551616", "9223372036854775807", "9223372036854775808",
        "-9223372036854775808", "-9223372036854775809", "1_000", "12 ", " 12", "1e3", "0x10",
        "\u{661}", "+", "-", "99999999999999999999999999",
    ];
    for s in samples {
        assert_eq!(parse_u64(&chars(s)), s.parse::<u64>().ok(), "{:?}", s);
        assert_eq!(parse_i64(&chars(s)), s.parse::<i64>().ok(), "{:?}", s);
    }
    let hex = ["", "0", "ff", "FF", "fF0a", "g", "0x1", "ffffffffffffffffffffffffffffffff", "100000000000000000000000000000000", "-1", "+1"];
    for s in hex {
        let expected = if s.is_empty() {
            Some(0)
        } else if s.starts_with('+') || s.starts_with('-') {
            None
        } else {
            u128::from_str_radix(s, 16).ok()
        };
        assert_eq!(parse_hex(&chars(s)), expected, "{:?}", s);
    }
}

#[test]
fn numbers_are_written_as_the_standard_library_writes_them() {
    for n in [0u64, 1, 9, 10, 11, 99, 100, 12345, u64::MAX] {
        let mut out = chars("n=");
        append_decimal(&mut out, n);
        assert_eq!(out.into_iter().collect::<String>(), format!("n={}", n));
    }
    for (v, digits) in [(0u128, 0usize), (0, 4), (0xabc, 2), (0xabc, 3), (0xabc, 8), (u128::MAX, 32), (u128::MAX, 40)] {
        let mut out = Vec::new();
        append_hex_fixed(&mut out, v, digits);
        let full = format!("{:040x}", v);
        assert_eq!(out.into_iter().collect::<String>(), full[40 - digits..]);
    }
}
