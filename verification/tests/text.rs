use starbase::count::{parse_count, parse_identity_count};
use starbase::error::{CountError, SetupError};
use starbase::text;

const SAMPLES: [&str; 24] = [
    "",
    " ",
    "\n",
    "\r\n",
    "a",
    "a\n",
    "a\nb",
    "a\r\nb\r\n",
    "a\r",
    "a\rb\n",
    "\n\n",
    "a\n\nb\n",
    "a\r\r\nb",
    "  a b  ",
    "\t a\u{a0}b \u{2003}",
    "\u{3000}\u{85}x\u{2028}y",
    "Host a b # c",
    "#",
    "a#b#c",
    "\u{e9}t\u{e9} \u{1f600}\n\u{1f600}",
    "ab abc a",
    "a\u{200b}b",
    "\u{feff}a",
    "\u{180e} a",
];

#[test]
fn white_space_is_that_of_char() {
    let mut code: u32 = 0;
    while code <= 0x10ffff {
        if let Some(c) = char::from_u32(code) {
            assert_eq!(text::is_white_space(c), c.is_whitespace(), "{code:x}");
        }
        code += 1;
    }
}

#[test]
fn trimming_is_that_of_str() {
    for s in SAMPLES {
        assert_eq!(text::trim(s), s.trim());
        assert_eq!(text::trim_start(s), s.trim_start());
        assert_eq!(text::is_blank(s), s.trim().is_empty());
        assert_eq!(text::is_solid(s), !s.chars().any(char::is_whitespace));
    }
}

#[test]
fn lines_are_those_of_str() {
    for s in SAMPLES {
        let expected: Vec<&str> = s.lines().collect();
        assert_eq!(text::lines(s), expected);
    }
    assert_eq!(text::lines("a\r\nb\r"), vec!["a", "b\r"]);
}

#[test]
fn words_are_those_of_str() {
    for s in SAMPLES {
        for w in ["", "a", "b", "ab", "abc", "x", "y", "Host", "#", "c", "a b", "\u{1f600}"] {
            assert_eq!(
                text::contains_word(s, w),
                s.split_whitespace().any(|t| t == w),
                "{s:?} {w:?}"
            );
        }
    }
}

#[test]
fn prefix_and_first_part_are_those_of_str() {
    for s in SAMPLES {
        for p in ["", "a", "Host", " ", "\u{e9}", "a\r"] {
            assert_eq!(text::strip_prefix(s, p), s.strip_prefix(p));
        }
        assert_eq!(text::up_to(s, '#'), s.split('#').next().unwrap_or(""));
        assert_eq!(text::contains_char(s, '\r'), s.contains('\r'));
        assert_eq!(text::find(s, 'b'), s.chars().take_while(|c| *c != 'b').count());
        assert_eq!(text::chars(s), s.chars().collect::<Vec<char>>());
    }
}

#[test]
fn comparisons_are_those_of_str() {
    let more = ["npm", "NPM", "nPm", "npn", "\u{c9}", "\u{e9}", "@", "`", "[", "{", "\u{212a}", "k"];
    for a in more {
        for b in more {
            assert_eq!(text::same_but_for_case(a, b), a.eq_ignore_ascii_case(b));
        }
    }
}

#[test]
fn count_is_that_of_usize() {
    let samples = [
        "", "0", "1", "42", "+7", "+", "-", "-1", "++1", "1+", " 1", "1 ", "12a", "a", "0001",
        "18446744073709551615", "18446744073709551616", "99999999999999999999x",
        "9999999999999999999999", "1844674407370955161x", "\u{661}", "1_000", "0x10",
    ];
    for s in samples {
        match s.parse::<usize>() {
            Ok(n) => assert_eq!(parse_count(s), Ok(n), "{s:?}"),
            Err(e) => {
                let found = parse_count(s).unwrap_err();
                assert_eq!(found.message(), e.to_string(), "{s:?}");
            }
        }
    }
    assert_eq!(parse_count(""), Err(CountError::Empty));
    assert_eq!(parse_count("x"), Err(CountError::InvalidDigit));
    assert_eq!(parse_count("99999999999999999999999"), Err(CountError::TooLarge));
}

#[test]
fn identity_count_is_trimmed_first() {
    assert_eq!(parse_identity_count(" 3\n"), Ok(3));
    assert_eq!(parse_identity_count("   "), Err(SetupError::Count(CountError::Empty)));
    assert_eq!(parse_identity_count("two"), Err(SetupError::Count(CountError::InvalidDigit)));
}

#[test]
fn error_messages() {
    assert_eq!(SetupError::HomeUnresolved.message(), "could not resolve home directory");
    assert_eq!(
        SetupError::AliasLineBreak.message(),
        "SSH host alias must not contain CR/LF characters"
    );
    assert_eq!(
        SetupError::KeyLineBreak.message(),
        "SSH key path must not contain CR/LF characters"
    );
    assert_eq!(
        SetupError::AliasWhiteSpace("github \"my\" one".to_string()).message(),
        "SSH host alias must not contain whitespace: \"github \\\"my\\\" one\""
    );
    assert_eq!(
        SetupError::AliasWhiteSpace("x".to_string()).message_with("<y>"),
        "SSH host alias must not contain whitespace: <y>"
    );
    assert_eq!(
        SetupError::AliasComment("a#b".to_string()).message(),
        "SSH host alias must not contain '#': \"a#b\""
    );
    assert_eq!(
        SetupError::AliasComment("x".to_string()).message_with("<y>"),
        "SSH host alias must not contain '#': <y>"
    );
    assert_eq!(SetupError::EmptyKey.message(), "SSH key path must not be empty");
    assert_eq!(SetupError::EmptyUsername.message(), "GitHub username must not be empty");
    assert_eq!(
        SetupError::Count(CountError::Empty).message(),
        "expected a number for identity count"
    );
}
