use compile_runner::text::{join, remove_carriage_return, split};

#[test]
fn test_remove_carriage_return() {
    assert_eq!(
        remove_carriage_return("Hello\r\nWorld\r\n".to_owned()),
        "Hello\nWorld\n"
    );
}

#[test]
fn normalize_keeps_lone_line_feeds_and_other_text() {
    assert_eq!(remove_carriage_return("a\rb\n\rc\r".to_owned()), "ab\nc");
    assert_eq!(remove_carriage_return("".to_owned()), "");
    assert_eq!(remove_carriage_return("é\r\n€".to_owned()), "é\n€");
}

#[test]
fn normalize_twice_is_normalize_once() {
    let once = remove_carriage_return("x\r\r\ny\r".to_owned());
    let twice = remove_carriage_return(once.clone());
    assert_eq!(once, "x\ny");
    assert_eq!(twice, once);
}

#[test]
fn split_empty_text_gives_one_empty_piece() {
    assert_eq!(split("", "\n\n"), vec!["".to_owned()]);
    assert_eq!(split("", ","), vec!["".to_owned()]);
}

#[test]
fn split_without_delimiter_occurrence_gives_whole_text() {
    assert_eq!(split("5 1 2 3 4 5", "\n\n"), vec!["5 1 2 3 4 5".to_owned()]);
}

#[test]
fn split_on_literal_delimiter() {
    assert_eq!(split("1\n\n2\n\n3", "\n\n"), vec!["1", "2", "3"]);
    assert_eq!(split("a,,b,", ","), vec!["a", "", "b", ""]);
    assert_eq!(split(" a | b ", "|"), vec![" a ", " b "]);
}

#[test]
fn split_takes_matches_from_the_left_without_overlap() {
    assert_eq!(split("aaa", "aa"), vec!["", "a"]);
    assert_eq!(split("\n\n\n", "\n\n"), vec!["", "\n"]);
}

#[test]
fn split_on_empty_delimiter_gives_each_character() {
    assert_eq!(split("ab", ""), vec!["", "a", "b", ""]);
    assert_eq!(split("", ""), vec!["", ""]);
}

#[test]
fn join_puts_separator_between_neighbours() {
    let parts = vec!["2".to_owned(), "4".to_owned(), "6".to_owned()];
    assert_eq!(join(&parts, "\n"), "2\n4\n6");
    assert_eq!(join(&vec![], "\n"), "");
    assert_eq!(join(&vec!["".to_owned(), "".to_owned()], ", "), ", ");
}
