use yogo::date::leap_year;
use yogo::number::decimal_string;
use yogo::pattern::group_text;
use yogo::text::{
    ascii_space, chars_of, contains_char, nth_part, nth_piece, nth_word, same_text, starts_with,
    trim_end,
};

fn cut(text: &str, span: Option<(usize, usize)>) -> Option<String> {
    let chars: Vec<char> = text.chars().collect();
    span.map(|(start, end)| chars[start..end].iter().collect())
}

fn word_of(text: &str, n: usize) -> Option<String> {
    cut(text, nth_word(&chars_of(text), n))
}

fn piece_of(text: &str, n: usize) -> Option<String> {
    cut(text, nth_piece(&chars_of(text), n))
}

fn part_of(text: &str, separator: char, n: usize) -> Option<String> {
    cut(text, nth_part(&chars_of(text), separator, n))
}

#[test]
fn characters_are_taken_one_by_one() {
    assert_eq!(chars_of(""), Vec::<char>::new());
    assert_eq!(chars_of("a\u{e9}\u{1f600}z"), ['a', '\u{e9}', '\u{1f600}', 'z']);
}

#[test]
fn only_the_five_ascii_spaces_are_white_space() {
    for c in [' ', '\t', '\n', '\x0C', '\r'] {
        assert!(ascii_space(c));
    }
    for c in ['\x0B', '\u{a0}', '\u{2003}', 'a', '0', '\0', '-'] {
        assert!(!ascii_space(c));
    }
}

#[test]
fn words_are_what_std_splits() {
    let texts = [
        "",
        " ",
        "one",
        " one ",
        "one two",
        "  one \t two\n\nthree\r\x0Cfour  ",
        "un\u{a0}deux trois",
        "\u{e9}t\u{e9} \u{1f600} z",
    ];
    for text in texts {
        let expected: Vec<&str> = text.split_ascii_whitespace().collect();
        for n in 0_usize..6 {
            assert_eq!(word_of(text, n).as_deref(), expected.get(n).copied(), "{text:?} {n}");
        }
    }
}

#[test]
fn pieces_are_what_std_splits() {
    let texts = [
        "",
        "-",
        "05-02&nbsp;18:37,",
        "12-13&nbsp;2021,",
        "a--b",
        "a-&nbsp;b",
        "&nbsp;&nbsp;",
        "a&nbsp",
        "a&nbsp;-",
        "&&nbsp;;",
        "&nbsp&nbsp;x",
        "\u{e9}-\u{1f600}&nbsp;z",
        "Y-day&nbsp;18:37",
    ];
    for text in texts {
        let expected: Vec<&str> = text.split('-').flat_map(|token| token.split("&nbsp;")).collect();
        for n in 0_usize..6 {
            assert_eq!(piece_of(text, n).as_deref(), expected.get(n).copied(), "{text:?} {n}");
        }
    }
}

#[test]
fn parts_are_what_std_splits() {
    for text in ["", "-", "2022-01-05", "2022--05-", "-a", "a", "\u{e9}-\u{1f600}"] {
        let expected: Vec<&str> = text.split('-').collect();
        for n in 0_usize..5 {
            assert_eq!(part_of(text, '-', n).as_deref(), expected.get(n).copied(), "{text:?} {n}");
        }
    }
    assert_eq!(part_of("a,b", ',', 1).as_deref(), Some("b"));
    assert_eq!(part_of("a,b", '-', 1), None);
}

#[test]
fn texts_are_compared_by_their_characters() {
    assert!(same_text("", ""));
    assert!(same_text("Today", "Today"));
    assert!(!same_text("Today", "today"));
    assert!(!same_text("Today", "Toda"));
    assert!(!same_text("Y", ""));
    assert!(same_text("\u{e9}", "\u{e9}"));
    assert!(!same_text("\u{e9}", "e\u{301}"));
}

#[test]
fn prefix_is_found_at_the_start_only() {
    assert!(starts_with("<b>13", "<b>"));
    assert!(starts_with("<b>", "<b>"));
    assert!(starts_with("anything", ""));
    assert!(starts_with("", ""));
    assert!(!starts_with("<b", "<b>"));
    assert!(!starts_with(" <b>", "<b>"));
    assert!(!starts_with("", "<b>"));
    assert!(!starts_with("<B>", "<b>"));
}

#[test]
fn character_is_found_anywhere() {
    assert!(contains_char("18:37", ':'));
    assert!(contains_char(":", ':'));
    assert!(contains_char("1837:", ':'));
    assert!(!contains_char("1837", ':'));
    assert!(!contains_char("", ':'));
    assert!(contains_char("\u{e9}t\u{e9}", '\u{e9}'));
}

#[test]
fn trailing_characters_are_cut_off() {
    assert_eq!(trim_end("2021,", ','), "2021");
    assert_eq!(trim_end("2021,,,", ','), "2021");
    assert_eq!(trim_end("2021", ','), "2021");
    assert_eq!(trim_end(",20,21", ','), ",20,21");
    assert_eq!(trim_end(",,", ','), "");
    assert_eq!(trim_end("", ','), "");
    assert_eq!(trim_end("\u{e9},", ','), "\u{e9}");
}

#[test]
fn numbers_are_written_as_std_writes_them() {
    for n in [0_usize, 1, 9, 10, 11, 99, 100, 101, 12_345, 4_294_967_295, usize::MAX] {
        assert_eq!(decimal_string(n), n.to_string());
    }
}

#[test]
fn leap_years_follow_the_gregorian_rule() {
    for year in [2024_i32, 2000, 1600, 0, -4, -400, 4] {
        assert!(leap_year(year), "{year}");
    }
    for year in [2023_i32, 1900, 2100, 1, -1, -100, i32::MAX, i32::MIN + 1] {
        assert!(!leap_year(year), "{year}");
    }
    assert!(leap_year(i32::MIN));
}

#[test]
fn group_is_picked_by_its_number() {
    let found = Some(vec![Some(String::from("whole")), None, Some(String::from("two"))]);
    assert_eq!(group_text(&found, 0), Some(String::from("whole")));
    assert_eq!(group_text(&found, 1), None);
    assert_eq!(group_text(&found, 2), Some(String::from("two")));
    assert_eq!(group_text(&found, 3), None);
    assert_eq!(group_text(&None, 0), None);
}

#[test]
fn lines_are_what_std_splits() {
    let texts = [
        "",
        "\n",
        "\r\n",
        "\r",
        "one",
        "one\n",
        "one\r\n",
        "one\r",
        "one\ntwo",
        "one\r\ntwo\r\n",
        "one\n\ntwo\n",
        "\n\none\n\n",
        "one\r\r\ntwo\rthree\n\r",
        "https://a/search/q/1/3/0\nhttps://a/user/u/\n",
        "\u{e9}t\u{e9}\n\u{1f600}",
    ];
    for text in texts {
        let expected: Vec<&str> = text.lines().collect();
        assert_eq!(yogo::text::lines_of(text), expected, "{text:?}");
        assert_eq!(yogo::pipeline::input_urls(text), expected, "{text:?}");
    }
}
