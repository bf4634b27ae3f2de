use crw::text::{eq_but_case, is_white_space, split_at_each, to_chars, to_text, trim};

#[test]
fn white_space_is_that_of_unicode() {
    for c in '\u{0}'..=char::MAX {
        assert_eq!(is_white_space(c), c.is_whitespace(), "{:?}", c);
    }
}

#[test]
fn ascii_case_is_ignored_and_no_other() {
    for a in '\u{0}'..='\u{17f}' {
        for b in '\u{0}'..='\u{17f}' {
            assert_eq!(eq_but_case(&[a], &[b]), a.eq_ignore_ascii_case(&b), "{:?} {:?}", a, b);
        }
    }
    assert!(!eq_but_case(&['k'], &['\u{212a}']));
    assert!(!eq_but_case(&['k'], &['k', 'k']));
}

#[test]
fn trimming_takes_both_ends() {
    for s in ["", " ", " a b ", "\u{2003}x\u{85}", "\r\n\t", "no"] {
        assert_eq!(to_text(trim(&to_chars(s))), s.trim());
    }
}

#[test]
fn pieces_stand_between_the_separators() {
    for s in ["", "\n", "a", "a\nb", "\na\n\nb\n"] {
        let chars = to_chars(s);
        let pieces: Vec<String> = split_at_each(&chars, '\n').into_iter().map(to_text).collect();
        let expected: Vec<&str> = s.split('\n').collect();
        assert_eq!(pieces, expected);
    }
}
