use luafmt::config::Config;
use luafmt::formatting::util::{charstring_to_normalstring, get_len_after_newline, get_len_till_newline, has_newlines, line_range_to_pos_range, trim_end_spaces_and_tabs};

#[test]
fn test_line_range_to_pos_range() {
    let source = r#"/usr/bin/lua

fn = function(a)
    print(a)
end

--comment
print(123)"#;

    assert_eq!(line_range_to_pos_range(&source, None), (0, 69));
    assert_eq!(line_range_to_pos_range(&source, Some((0, 100))), (0, 69));
    assert_eq!(line_range_to_pos_range(&source, Some((1, 100))), (0, 69));
    assert_eq!(line_range_to_pos_range(&source, Some((0, 8))), (0, 69));
    assert_eq!(line_range_to_pos_range(&source, Some((1, 8))), (0, 69));

    assert_eq!(line_range_to_pos_range(&source, Some((1, 1))), (0, 12));
    assert_eq!(line_range_to_pos_range(&source, Some((2, 2))), (12, 13));
    assert_eq!(line_range_to_pos_range(&source, Some((3, 3))), (13, 30));
    assert_eq!(line_range_to_pos_range(&source, Some((4, 4))), (30, 43));
    assert_eq!(line_range_to_pos_range(&source, Some((5, 5))), (43, 47));
    assert_eq!(line_range_to_pos_range(&source, Some((6, 6))), (47, 48));
    assert_eq!(line_range_to_pos_range(&source, Some((7, 7))), (48, 58));
    assert_eq!(line_range_to_pos_range(&source, Some((8, 8))), (58, 69));

    assert_eq!(line_range_to_pos_range(&source, Some((1, 2))), (0, 13));
    assert_eq!(line_range_to_pos_range(&source, Some((2, 4))), (12, 43));
    assert_eq!(line_range_to_pos_range(&source, Some((3, 6))), (13, 48));
}

#[test]
fn test_trim_end_spaces_and_tabs() {
    assert_eq!(trim_end_spaces_and_tabs(&"abc\t  \t  ".to_string()), "abc");
    assert_eq!(trim_end_spaces_and_tabs(&"abc\t  \n\t  ".to_string()), "abc\t  \n");
    assert_eq!(trim_end_spaces_and_tabs(&"abc\t  \r\t  ".to_string()), "abc\t  \r");
}

#[test]
fn test_len_after_newline() {
    let cfg = Config::default();
    assert_eq!(get_len_after_newline("abc", &cfg), 3);
    assert_eq!(get_len_after_newline("abc\t  \n  ", &cfg), 2);
    assert_eq!(get_len_after_newline("abc\t  \n  absdsrf", &cfg), 9);
    assert_eq!(get_len_after_newline("\nabc\t dasdsadas \n  asdasdas\nabsdsrf", &cfg), 7);
    assert_eq!(get_len_after_newline("abc\t  \nабв", &cfg), 3);
}

#[test]
fn test_len_till_newline() {
    let cfg = Config::default();
    assert_eq!(get_len_till_newline("abc", &cfg), 3);
    assert_eq!(get_len_till_newline("abc\t  \n  ", &cfg), 6);
    assert_eq!(get_len_till_newline("abc\n  \n  absdsrf", &cfg), 3);
    assert_eq!(get_len_till_newline("\nabc\t dasdsadas", &cfg), 0);
    assert_eq!(get_len_till_newline("ab\nc\t  \nабв", &cfg), 2);
}

#[test]
fn test_has_newlines() {
    assert_eq!(has_newlines("abc\t  \n  "), true);
    assert_eq!(has_newlines("abc\t  \r\tasdas   "), false);
}

#[test]
fn test_charstring_to_normalstring() {
    assert_eq!(charstring_to_normalstring(r#" hi ab"cas"das   "#), r#" hi ab\"cas\"das   "#);
    assert_eq!(charstring_to_normalstring(r#" hi ab\"cas\"das   "#), r#" hi ab\"cas\"das   "#);
    assert_eq!(charstring_to_normalstring(r#" hi ab\\"cas\\"das   "#), r#" hi ab\\\"cas\\\"das   "#);
    assert_eq!(charstring_to_normalstring(r#" hi ab\\\"cas\\\"das   "#), r#" hi ab\\\"cas\\\"das   "#);
}

#[test]
fn test_conversion_twice_is_conversion_once() {
    let sources = [r#" hi ab"cas"das   "#, r#"a\"b"#, r#"\\"x\\\"y"#, r#"""#, "", r#"\"#];
    for s in sources.iter() {
        let once = charstring_to_normalstring(s);
        assert_eq!(charstring_to_normalstring(&once), once);
    }
}
