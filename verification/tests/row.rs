use texte_rs::row::{delete_among, insert_among, render_clusters};
use texte_rs::{Position, Row};

fn text(row: &Row) -> String {
    row.render(0, usize::MAX)
}

fn at(x: usize) -> Position {
    Position { x, y: 0 }
}

#[test]
fn len_counts_clusters_not_bytes() {
    assert_eq!(Row::from("abc").len(), 3);
    assert_eq!(Row::from("\u{e9}").len(), 1);
    assert_eq!(Row::from("e\u{301}").len(), 1);
    assert_eq!(Row::from("a\u{310}e\u{301}o\u{308}\u{332}").len(), 3);
    assert_eq!(Row::from("a\r\nb\u{1F1F7}\u{1F1FA}\u{1F1F8}\u{1F1F9}").len(), 5);
    assert_eq!(Row::from("\u{1F468}\u{200D}\u{1F469}\u{200D}\u{1F467}").len(), 1);
}

#[test]
fn from_keeps_the_text() {
    let row = Row::from("hello");
    assert_eq!(text(&row), "hello");
    assert_eq!(row.len(), 5);
    assert!(!row.is_empty());
}

#[test]
fn default_is_the_empty_line() {
    let row = Row::default();
    assert_eq!(row.len(), 0);
    assert!(row.is_empty());
    assert_eq!(text(&row), "");
}

#[test]
fn is_empty_only_without_characters() {
    assert!(Row::from("").is_empty());
    assert!(!Row::from(" ").is_empty());
    assert!(!Row::from("\t").is_empty());
}

#[test]
fn render_takes_the_columns_asked_for() {
    let row = Row::from("hello");
    assert_eq!(row.render(0, 5), "hello");
    assert_eq!(row.render(1, 3), "el");
    assert_eq!(row.render(0, 1), "h");
    assert_eq!(row.render(4, 5), "o");
}

#[test]
fn render_cuts_the_range_down_to_the_line() {
    let row = Row::from("hello");
    assert_eq!(row.render(1, 100), "ello");
    assert_eq!(row.render(0, usize::MAX), "hello");
    assert_eq!(row.render(5, 9), "");
    assert_eq!(row.render(7, 9), "");
    assert_eq!(row.render(usize::MAX, usize::MAX), "");
}

#[test]
fn render_of_an_inverted_range_is_empty() {
    let row = Row::from("hello");
    assert_eq!(row.render(3, 1), "");
    assert_eq!(row.render(5, 0), "");
    assert_eq!(row.render(100, 2), "");
}

#[test]
fn render_of_an_empty_range_is_empty() {
    let row = Row::from("hello");
    for a in 0..8 {
        assert_eq!(row.render(a, a), "");
    }
}

#[test]
fn render_of_the_whole_line_is_its_text() {
    for s in ["", "a", "hello world", "e\u{301}t\u{e9}", "x\u{1F1F7}\u{1F1FA}y"] {
        let row = Row::from(s);
        assert_eq!(row.render(0, row.len()), s);
    }
}

#[test]
fn render_shows_a_tab_as_four_spaces() {
    let row = Row::from("a\tb");
    assert_eq!(row.len(), 3);
    assert_eq!(row.render(0, 3), "a    b");
    assert_eq!(row.render(1, 2), "    ");
    assert_eq!(row.render(0, 1), "a");
    assert_eq!(row.render(2, 3), "b");
    assert_eq!(Row::from("\t\t").render(0, 2), "        ");
}

#[test]
fn render_leaves_the_stored_tab_alone() {
    let mut row = Row::from("\t");
    let _ = row.render(0, 1);
    assert_eq!(row.len(), 1);
    row.insert(1, 'x');
    assert_eq!(row.len(), 2);
    assert_eq!(row.render(1, 2), "x");
}

#[test]
fn render_counts_columns_in_clusters() {
    let row = Row::from("ae\u{301}b");
    assert_eq!(row.render(1, 2), "e\u{301}");
    assert_eq!(row.render(2, 3), "b");
}

#[test]
fn insert_goes_before_the_cluster_at_the_column() {
    let mut row = Row::from("abc");
    row.insert(0, 'x');
    assert_eq!(text(&row), "xabc");
    row.insert(2, 'y');
    assert_eq!(text(&row), "xaybc");
    assert_eq!(row.len(), 5);
}

#[test]
fn insert_at_or_past_the_end_appends() {
    let mut row = Row::from("abc");
    row.insert(3, 'x');
    assert_eq!(text(&row), "abcx");
    row.insert(100, 'y');
    assert_eq!(text(&row), "abcxy");
    row.insert(usize::MAX, 'z');
    assert_eq!(text(&row), "abcxyz");
    assert_eq!(row.len(), 6);
}

#[test]
fn insert_into_the_empty_line() {
    let mut row = Row::default();
    row.insert(0, 'q');
    assert_eq!(text(&row), "q");
    assert_eq!(row.len(), 1);
}

#[test]
fn insert_does_not_split_a_cluster() {
    let mut row = Row::from("e\u{301}x");
    row.insert(1, 'y');
    assert_eq!(text(&row), "e\u{301}yx");
    assert_eq!(row.len(), 3);
    row.insert(0, 'z');
    assert_eq!(text(&row), "ze\u{301}yx");
    assert_eq!(row.len(), 4);
}

#[test]
fn delete_takes_out_one_cluster() {
    let mut row = Row::from("abc");
    row.delete(&at(1));
    assert_eq!(text(&row), "ac");
    assert_eq!(row.len(), 2);
    row.delete(&at(0));
    assert_eq!(text(&row), "c");
    row.delete(&at(0));
    assert_eq!(text(&row), "");
    assert_eq!(row.len(), 0);
}

#[test]
fn delete_takes_out_a_whole_cluster() {
    let mut row = Row::from("ae\u{301}b");
    assert_eq!(row.len(), 3);
    row.delete(&at(1));
    assert_eq!(text(&row), "ab");
    assert_eq!(row.len(), 2);

    let mut flags = Row::from("x\u{1F1F7}\u{1F1FA}y");
    flags.delete(&at(1));
    assert_eq!(text(&flags), "xy");
}

#[test]
fn delete_past_the_end_changes_nothing() {
    let mut row = Row::from("abc");
    row.delete(&at(3));
    assert_eq!(text(&row), "abc");
    row.delete(&at(usize::MAX));
    assert_eq!(text(&row), "abc");
    assert_eq!(row.len(), 3);
    let mut empty = Row::default();
    empty.delete(&at(0));
    assert!(empty.is_empty());
}

#[test]
fn delete_does_not_look_at_the_line_number() {
    let mut row = Row::from("abc");
    row.delete(&Position { x: 1, y: 42 });
    assert_eq!(text(&row), "ac");
}

#[test]
fn cluster_moves_and_leaves_as_a_unit() {
    let family = "\u{1F468}\u{200D}\u{1F469}\u{200D}\u{1F467}";
    let mut row = Row::from(format!("a{}b", family).as_str());
    assert_eq!(row.len(), 3);
    row.insert(1, 'x');
    assert_eq!(text(&row), format!("ax{}b", family));
    assert_eq!(row.render(2, 3), family);
    row.insert(3, 'y');
    assert_eq!(text(&row), format!("ax{}yb", family));
    row.delete(&at(2));
    assert_eq!(text(&row), "axyb");
    assert_eq!(row.len(), 4);
}

#[test]
fn insert_then_delete_gives_the_line_back() {
    for s in ["", "a", "hello", "e\u{301}te\u{301}", "ab\u{1F1F7}\u{1F1FA}"] {
        let n = Row::from(s).len();
        for c in 0..=n {
            for x in ['x', ' ', '\u{e9}', '\u{4e2d}'] {
                let mut row = Row::from(s);
                row.insert(c, x);
                assert_eq!(row.len(), n + 1);
                row.delete(&at(c));
                assert_eq!(text(&row), s);
                assert_eq!(row.len(), n);
            }
        }
    }
}

#[test]
fn combining_character_joins_its_neighbour() {
    let mut row = Row::from("e");
    row.insert(1, '\u{301}');
    assert_eq!(row.len(), 1);
    row.delete(&at(1));
    assert_eq!(text(&row), "e\u{301}");
    row.delete(&at(0));
    assert_eq!(text(&row), "");
}

#[test]
fn append_joins_the_texts() {
    let mut row = Row::from("ab");
    row.append(&Row::from("cd"));
    assert_eq!(text(&row), "abcd");
    assert_eq!(row.len(), 4);
    row.append(&Row::default());
    assert_eq!(text(&row), "abcd");
}

#[test]
fn append_counts_the_clusters_again() {
    let mut row = Row::from("e");
    row.append(&Row::from("\u{301}x"));
    assert_eq!(text(&row), "e\u{301}x");
    assert_eq!(row.len(), 2);
}

#[test]
fn update_len_changes_nothing() {
    let mut row = Row::from("he\u{301}llo");
    row.update_len();
    assert_eq!(row.len(), 5);
    assert_eq!(text(&row), "he\u{301}llo");
    row.insert(0, 'x');
    row.update_len();
    assert_eq!(row.len(), 6);
}

fn parts(items: &[&str]) -> Vec<String> {
    items.iter().map(|s| String::from(*s)).collect()
}

#[test]
fn render_clusters_takes_whole_pieces() {
    let g = parts(&["ab", "\t", "c", "de"]);
    assert_eq!(render_clusters(&g, 0, 4), "ab    cde");
    assert_eq!(render_clusters(&g, 0, 1), "ab");
    assert_eq!(render_clusters(&g, 1, 3), "    c");
    assert_eq!(render_clusters(&g, 3, 9), "de");
    assert_eq!(render_clusters(&g, 4, 9), "");
    assert_eq!(render_clusters(&g, 3, 1), "");
    assert_eq!(render_clusters(&g, 2, 2), "");
    assert_eq!(render_clusters(&parts(&[]), 0, 5), "");
}

#[test]
fn render_clusters_expands_only_a_lone_tab() {
    let g = parts(&["a\t", "\t", "\tb", "\t\t"]);
    assert_eq!(render_clusters(&g, 0, 4), "a\t    \tb\t\t");
}

#[test]
fn insert_among_puts_the_character_between_pieces() {
    let g = parts(&["ab", "c", "de"]);
    assert_eq!(insert_among(&g, 0, 'x'), "xabcde");
    assert_eq!(insert_among(&g, 1, 'x'), "abxcde");
    assert_eq!(insert_among(&g, 2, 'x'), "abcxde");
    assert_eq!(insert_among(&g, 3, 'x'), "abcdex");
    assert_eq!(insert_among(&g, 4, 'x'), "abcdex");
    assert_eq!(insert_among(&g, usize::MAX, 'x'), "abcdex");
    assert_eq!(insert_among(&parts(&[]), 0, 'x'), "x");
    assert_eq!(insert_among(&parts(&[]), 3, 'x'), "x");
}

#[test]
fn delete_among_takes_out_one_piece() {
    let g = parts(&["ab", "c", "de"]);
    assert_eq!(delete_among(&g, 0), "cde");
    assert_eq!(delete_among(&g, 1), "abde");
    assert_eq!(delete_among(&g, 2), "abc");
    assert_eq!(delete_among(&g, 3), "abcde");
    assert_eq!(delete_among(&g, usize::MAX), "abcde");
    assert_eq!(delete_among(&parts(&[]), 0), "");
    assert_eq!(delete_among(&parts(&["ab"]), 0), "");
}
