use texte_rs::{File, Position};

fn pos(x: usize, y: usize) -> Position {
    Position { x, y }
}

fn lines(file: &File) -> Vec<String> {
    let mut out = Vec::new();
    for i in 0..file.len() {
        out.push(file.row(i).unwrap().render(0, usize::MAX));
    }
    out
}

fn std_lines(text: &str) -> Vec<String> {
    text.lines().map(String::from).collect()
}

#[test]
fn default_has_no_lines_and_no_name() {
    let file = File::default();
    assert!(file.is_empty());
    assert_eq!(file.len(), 0);
    assert!(file.file_name.is_none());
    assert!(file.row(0).is_none());
}

#[test]
fn open_splits_the_text_at_line_feeds() {
    let file = File::open("notes.txt", Some("ab\ncd\nef"));
    assert_eq!(lines(&file), vec!["ab", "cd", "ef"]);
    assert_eq!(file.file_name.as_deref(), Some("notes.txt"));
    assert!(!file.is_empty());
}

#[test]
fn open_takes_the_last_line_feed_as_optional() {
    assert_eq!(lines(&File::open("f", Some("ab\ncd\n"))), vec!["ab", "cd"]);
    assert_eq!(lines(&File::open("f", Some("ab\ncd"))), vec!["ab", "cd"]);
}

#[test]
fn open_keeps_empty_lines() {
    assert_eq!(lines(&File::open("f", Some("a\n\nb"))), vec!["a", "", "b"]);
    assert_eq!(lines(&File::open("f", Some("\n"))), vec![""]);
    assert_eq!(lines(&File::open("f", Some("\n\n"))), vec!["", ""]);
    assert_eq!(lines(&File::open("f", Some("\na"))), vec!["", "a"]);
}

#[test]
fn open_of_an_empty_text_has_no_lines() {
    let file = File::open("f", Some(""));
    assert!(file.is_empty());
    assert_eq!(file.file_name.as_deref(), Some("f"));
}

#[test]
fn open_drops_a_carriage_return_before_a_line_feed() {
    assert_eq!(lines(&File::open("f", Some("a\r\nb\r\n"))), vec!["a", "b"]);
    assert_eq!(lines(&File::open("f", Some("\r\n"))), vec![""]);
    assert_eq!(lines(&File::open("f", Some("a\r\r\nb"))), vec!["a\r", "b"]);
}

#[test]
fn open_keeps_a_carriage_return_elsewhere() {
    assert_eq!(lines(&File::open("f", Some("a\rb"))), vec!["a\rb"]);
    assert_eq!(lines(&File::open("f", Some("a\r"))), vec!["a\r"]);
    assert_eq!(lines(&File::open("f", Some("\r"))), vec!["\r"]);
    assert_eq!(lines(&File::open("f", Some("\ra\n\r"))), vec!["\ra", "\r"]);
}

#[test]
fn open_splits_as_the_standard_library_does() {
    let samples = [
        "",
        "a",
        "\n",
        "\r",
        "\r\n",
        "\n\r",
        "a\nb",
        "a\r\nb\r\n",
        "a\r\r\n\rb\n\n",
        "x\r",
        "x\r\r",
        "\r\r\n\r\n\n",
        "h\u{e9}llo\n\u{4e2d}\u{6587}\r\nend",
    ];
    for text in samples {
        assert_eq!(lines(&File::open("f", Some(text))), std_lines(text), "{:?}", text);
    }
}

#[test]
fn open_after_a_failed_read_is_one_empty_line() {
    let file = File::open("/no/such/file", None);
    assert_eq!(file.len(), 1);
    assert!(!file.is_empty());
    assert!(file.row(0).unwrap().is_empty());
    assert_eq!(file.row(0).unwrap().len(), 0);
    assert!(file.file_name.is_none());
}

#[test]
fn row_is_absent_past_the_last_line() {
    let file = File::open("f", Some("ab\ncd"));
    assert_eq!(file.row(0).unwrap().render(0, 9), "ab");
    assert_eq!(file.row(1).unwrap().render(0, 9), "cd");
    assert!(file.row(2).is_none());
    assert!(file.row(usize::MAX).is_none());
}

#[test]
fn insert_one_past_the_last_line_adds_a_line() {
    let mut file = File::open("f", Some("ab"));
    assert_eq!(file.len(), 1);
    file.insert(&pos(0, 1), 'x');
    assert_eq!(file.len(), 2);
    assert_eq!(lines(&file), vec!["ab", "x"]);
}

#[test]
fn insert_one_past_the_last_line_ignores_the_column() {
    let mut file = File::open("f", Some("ab"));
    file.insert(&pos(7, 1), 'x');
    assert_eq!(lines(&file), vec!["ab", "x"]);
}

#[test]
fn insert_into_a_document_without_lines() {
    let mut file = File::default();
    file.insert(&pos(0, 0), 'a');
    assert_eq!(lines(&file), vec!["a"]);
    file.insert(&pos(1, 0), 'b');
    assert_eq!(lines(&file), vec!["ab"]);
}

#[test]
fn insert_on_a_line_goes_to_its_column() {
    let mut file = File::open("f", Some("ab\ncd"));
    file.insert(&pos(1, 0), 'x');
    file.insert(&pos(0, 1), 'y');
    file.insert(&pos(99, 1), 'z');
    assert_eq!(lines(&file), vec!["axb", "ycdz"]);
    assert_eq!(file.len(), 2);
}

#[test]
fn insert_below_the_document_changes_nothing() {
    let mut file = File::open("f", Some("ab\ncd"));
    file.insert(&pos(0, 3), 'x');
    file.insert(&pos(0, usize::MAX), 'x');
    assert_eq!(lines(&file), vec!["ab", "cd"]);
}

#[test]
fn insert_keeps_the_name() {
    let mut file = File::open("name", Some("ab"));
    file.insert(&pos(0, 0), 'x');
    file.delete(&pos(0, 0));
    assert_eq!(file.file_name.as_deref(), Some("name"));
}

#[test]
fn delete_at_the_end_of_a_line_joins_the_next() {
    let mut file = File::open("f", Some("ab\ncd"));
    file.delete(&pos(2, 0));
    assert_eq!(file.len(), 1);
    assert_eq!(lines(&file), vec!["abcd"]);
    assert_eq!(file.row(0).unwrap().len(), 4);
}

#[test]
fn delete_joins_only_the_two_lines() {
    let mut file = File::open("f", Some("ab\ncd\nef\ngh"));
    file.delete(&pos(2, 1));
    assert_eq!(lines(&file), vec!["ab", "cdef", "gh"]);
}

#[test]
fn delete_joins_an_empty_line() {
    let mut file = File::open("f", Some("\nab"));
    file.delete(&pos(0, 0));
    assert_eq!(lines(&file), vec!["ab"]);
    let mut other = File::open("f", Some("ab\n\ncd"));
    other.delete(&pos(2, 0));
    assert_eq!(lines(&other), vec!["ab", "cd"]);
}

#[test]
fn delete_within_a_line_takes_one_cluster() {
    let mut file = File::open("f", Some("abc\nde\u{301}f"));
    file.delete(&pos(1, 0));
    file.delete(&pos(1, 1));
    assert_eq!(lines(&file), vec!["ac", "df"]);
}

#[test]
fn delete_at_the_end_of_the_last_line_changes_nothing() {
    let mut file = File::open("f", Some("ab\ncd"));
    file.delete(&pos(2, 1));
    assert_eq!(lines(&file), vec!["ab", "cd"]);
}

#[test]
fn delete_past_the_end_of_a_line_changes_nothing() {
    let mut file = File::open("f", Some("ab\ncd"));
    file.delete(&pos(3, 0));
    file.delete(&pos(usize::MAX, 0));
    assert_eq!(lines(&file), vec!["ab", "cd"]);
}

#[test]
fn delete_below_the_document_changes_nothing() {
    let mut file = File::open("f", Some("ab\ncd"));
    file.delete(&pos(0, 2));
    file.delete(&pos(0, usize::MAX));
    assert_eq!(lines(&file), vec!["ab", "cd"]);
    let mut empty = File::default();
    empty.delete(&pos(0, 0));
    assert!(empty.is_empty());
}

#[test]
fn len_and_is_empty_follow_the_lines() {
    let mut file = File::default();
    assert_eq!(file.len(), 0);
    assert!(file.is_empty());
    file.insert(&pos(0, 0), 'a');
    assert_eq!(file.len(), 1);
    assert!(!file.is_empty());
    file.insert(&pos(0, 1), 'b');
    assert_eq!(file.len(), 2);
    file.delete(&pos(1, 0));
    assert_eq!(file.len(), 1);
}
