use zpad::note::{flush_writes, search_plan, title_from_text, SearchFrom, SearchPlan};
use zpad::text::{parse_decimal_u64, push_decimal, split_words};

#[test]
fn title_is_the_first_nonblank_line() {
    assert_eq!(title_from_text("hello world"), "hello world");
    assert_eq!(title_from_text("  \n\t \n  second line  \nthird"), "second line");
    assert_eq!(title_from_text("abc\r\ndef"), "abc");
    assert_eq!(title_from_text("\u{3000}wide space\u{3000}"), "wide space");
}

#[test]
fn blank_notes_are_titled_new_note() {
    assert_eq!(title_from_text(""), "New note");
    assert_eq!(title_from_text(" \n\n\t\r\n "), "New note");
}

#[test]
fn long_titles_are_cut_at_forty_characters() {
    let forty = "a".repeat(40);
    assert_eq!(title_from_text(&forty), forty);
    let long = format!("{}bcd", "é".repeat(40));
    assert_eq!(title_from_text(&long), format!("{}…", "é".repeat(40)));
    assert_eq!(title_from_text(&long).chars().count(), 41);
}

#[test]
fn empty_untouched_notes_leave_no_file() {
    assert!(!flush_writes(false, ""));
    assert!(flush_writes(true, ""));
    assert!(flush_writes(false, "x"));
    assert!(flush_writes(true, "x"));
}

#[test]
fn searches_start_from_the_selection() {
    assert_eq!(search_plan("", false, None), None);
    assert_eq!(
        search_plan("q", false, None),
        Some(SearchPlan { from: SearchFrom::Start, wrap_from: SearchFrom::Start, backwards: false })
    );
    assert_eq!(
        search_plan("q", true, None),
        Some(SearchPlan { from: SearchFrom::End, wrap_from: SearchFrom::End, backwards: true })
    );
    assert_eq!(
        search_plan("q", false, Some((3, 7))),
        Some(SearchPlan { from: SearchFrom::Offset(7), wrap_from: SearchFrom::Start, backwards: false })
    );
    assert_eq!(
        search_plan("q", true, Some((3, 7))),
        Some(SearchPlan { from: SearchFrom::Offset(3), wrap_from: SearchFrom::End, backwards: true })
    );
}

#[test]
fn decimal_numbers_read_back() {
    for n in [0u64, 7, 10, 12345, u64::MAX] {
        let mut s = String::new();
        push_decimal(&mut s, n);
        assert_eq!(s, n.to_string());
        let chars: Vec<char> = s.chars().collect();
        assert_eq!(parse_decimal_u64(&chars), Some(n));
    }
}

#[test]
fn decimal_parsing_follows_from_str() {
    let parse = |s: &str| parse_decimal_u64(&s.chars().collect::<Vec<char>>());
    for s in ["", "+", "-1", "1 ", "12a", "18446744073709551616", "99999999999999999999", "++1"] {
        assert_eq!(parse(s), s.parse::<u64>().ok(), "{s:?}");
    }
    for s in ["+5", "05", "18446744073709551615", "0"] {
        assert_eq!(parse(s), s.parse::<u64>().ok(), "{s:?}");
    }
}

#[test]
fn words_split_at_white_space() {
    let words: Vec<String> = split_words("  Noto\tSans \u{2003}Mono  12 ")
        .into_iter()
        .map(|w| w.into_iter().collect())
        .collect();
    assert_eq!(words, vec!["Noto", "Sans", "Mono", "12"]);
    assert!(split_words(" \n ").is_empty());
}
