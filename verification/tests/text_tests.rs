use pathtracer::text::{chars_of, join_words, same_text, split_text};

fn strings(parts: &[&str]) -> Vec<String> {
    parts.iter().map(|p| p.to_string()).collect()
}

#[test]
fn chars_of_keeps_every_character() {
    assert_eq!(chars_of(""), Vec::<char>::new());
    assert_eq!(chars_of("a b"), vec!['a', ' ', 'b']);
    assert_eq!(chars_of("é√x"), vec!['é', '√', 'x']);
}

#[test]
fn same_text_compares_characters() {
    assert!(same_text("", ""));
    assert!(same_text("sphere", "sphere"));
    assert!(!same_text("sphere", "spheres"));
    assert!(!same_text("sphere", "sphera"));
    assert!(!same_text("", " "));
}

#[test]
fn split_of_empty_text_is_one_empty_piece() {
    assert_eq!(split_text("", ' '), strings(&[""]));
}

#[test]
fn split_without_separator_is_the_text() {
    assert_eq!(split_text("abc", ' '), strings(&["abc"]));
}

#[test]
fn split_keeps_empty_pieces() {
    assert_eq!(split_text("a  b", ' '), strings(&["a", "", "b"]));
    assert_eq!(split_text(" a", ' '), strings(&["", "a"]));
    assert_eq!(split_text("a ", ' '), strings(&["a", ""]));
    assert_eq!(split_text("  ", ' '), strings(&["", "", ""]));
}

#[test]
fn split_agrees_with_std() {
    for text in ["", "a", "a b c", " a  b ", "x\ny\n\nz", "é √ x", "\n", "1 2 3\n4 5 6\n"] {
        for sep in [' ', '\n'] {
            let expected: Vec<String> = text.split(sep).map(|p| p.to_string()).collect();
            assert_eq!(split_text(text, sep), expected);
        }
    }
}

#[test]
fn join_words_puts_single_spaces_between() {
    let parts = strings(&["red", "1", "mirror", "sphere", "", "1"]);
    assert_eq!(join_words(&parts, 0), "red 1 mirror sphere  1");
    assert_eq!(join_words(&parts, 3), "sphere  1");
    assert_eq!(join_words(&parts, 5), "1");
    assert_eq!(join_words(&parts, 6), "");
}

#[test]
fn join_undoes_split() {
    for text in ["", "a", "a b c", " a  b ", "sphere 1 2  3"] {
        assert_eq!(join_words(&split_text(text, ' '), 0), text);
    }
}
