use field_align::text::{
    has_delimiter, is_whitespace, keywords, line_is_comment, line_is_header,
    skip_spaces, split_lines, COMMENT_MARKER, DELIMITER, KEYWORD_COUNT,
};

fn chars(s: &str) -> Vec<char> {
    s.chars().collect()
}

fn lines_as_strings(text: &str) -> Vec<String> {
    split_lines(text).into_iter().map(|line| line.into_iter().collect()).collect()
}

#[test]
fn delimiter_and_comment_marker() {
    assert_eq!(DELIMITER, ';');
    assert_eq!(COMMENT_MARKER, '#');
}

#[test]
fn whitespace_agrees_with_std_on_every_char() {
    let mut code: u32 = 0;
    while code <= 0x10FFFF {
        if let Some(c) = char::from_u32(code) {
            assert_eq!(is_whitespace(c), c.is_whitespace(), "U+{:04X}", code);
        }
        code += 1;
    }
}

#[test]
fn whitespace_examples() {
    assert!(is_whitespace(' '));
    assert!(is_whitespace('\t'));
    assert!(is_whitespace('\u{3000}'));
    assert!(is_whitespace('\u{00A0}'));
    assert!(!is_whitespace('a'));
    assert!(!is_whitespace(';'));
    assert!(!is_whitespace('\u{200B}'));
}

#[test]
fn keywords_are_the_five_actions_in_order() {
    assert_eq!(KEYWORD_COUNT, 5);
    assert_eq!(keywords(), vec!["INSERT_UPDATE", "INSERT", "UPDATE", "DELETE", "REMOVE"]);
}

#[test]
fn has_delimiter_finds_a_semicolon_anywhere() {
    assert!(has_delimiter(&chars(";")));
    assert!(has_delimiter(&chars("a;b")));
    assert!(has_delimiter(&chars("ab;")));
    assert!(!has_delimiter(&chars("")));
    assert!(!has_delimiter(&chars("a,b:c")));
}

#[test]
fn skip_spaces_counts_leading_white_space_only() {
    assert_eq!(skip_spaces(&chars("")), 0);
    assert_eq!(skip_spaces(&chars("abc")), 0);
    assert_eq!(skip_spaces(&chars("  \t abc  ")), 4);
    assert_eq!(skip_spaces(&chars("   ")), 3);
    assert_eq!(skip_spaces(&chars("\u{3000}\u{00A0}x")), 2);
}

#[test]
fn comment_is_marker_first_after_white_space() {
    assert!(line_is_comment(&chars("#")));
    assert!(line_is_comment(&chars("# a;b")));
    assert!(line_is_comment(&chars("  \t#a;b")));
    assert!(!line_is_comment(&chars("")));
    assert!(!line_is_comment(&chars("   ")));
    assert!(!line_is_comment(&chars("a;#b")));
    assert!(!line_is_comment(&chars("INSERT;a # note")));
}

#[test]
fn header_begins_with_a_keyword_after_white_space() {
    assert!(line_is_header(&chars("INSERT;a;")));
    assert!(line_is_header(&chars("INSERT_UPDATE Product;code;")));
    assert!(line_is_header(&chars("UPDATE;")));
    assert!(line_is_header(&chars("DELETE")));
    assert!(line_is_header(&chars("REMOVE x")));
    assert!(line_is_header(&chars("   \tREMOVE;")));
    assert!(line_is_header(&chars("INSERTED;")));
    assert!(!line_is_header(&chars("")));
    assert!(!line_is_header(&chars(";INSERT;")));
    assert!(!line_is_header(&chars("insert;a")));
    assert!(!line_is_header(&chars("INSER;T")));
    assert!(!line_is_header(&chars("UPDAT")));
    assert!(!line_is_header(&chars("x INSERT")));
}

#[test]
fn split_lines_examples() {
    assert_eq!(lines_as_strings(""), Vec::<String>::new());
    assert_eq!(lines_as_strings("a"), vec!["a"]);
    assert_eq!(lines_as_strings("a\n"), vec!["a"]);
    assert_eq!(lines_as_strings("\n"), vec![""]);
    assert_eq!(lines_as_strings("a\n\nb"), vec!["a", "", "b"]);
    assert_eq!(lines_as_strings("a\r\nb\r\n"), vec!["a", "b"]);
    assert_eq!(lines_as_strings("a\r\r\nb"), vec!["a\r", "b"]);
    assert_eq!(lines_as_strings("a\rb\nc\r"), vec!["a\rb", "c\r"]);
    assert_eq!(lines_as_strings("\r\n"), vec![""]);
    assert_eq!(lines_as_strings("ä;ö\nü"), vec!["ä;ö", "ü"]);
}

#[test]
fn split_lines_agrees_with_std_lines() {
    let pieces = ["", "a", ";", "\n", "\r", "\r\n", "x;y", " ", "\n\n", "\r\r", "é"];
    for first in pieces {
        for second in pieces {
            for third in pieces {
                for fourth in pieces {
                    let text = format!("{}{}{}{}", first, second, third, fourth);
                    let expected: Vec<String> = text.lines().map(|l| l.to_string()).collect();
                    assert_eq!(lines_as_strings(&text), expected, "{:?}", text);
                }
            }
        }
    }
}
