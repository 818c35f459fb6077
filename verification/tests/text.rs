use managed_alias::text::{
    find, glyphs_of, join_words, push_glyphs, push_repeated, push_text, split_at, stands_at,
    string_between, string_of,
};

fn glyphs(text: &str) -> Vec<char> {
    text.chars().collect()
}

#[test]
fn glyphs_of_and_string_of_are_inverse() {
    let text = "║ héllo ║";
    assert_eq!(glyphs_of(text), glyphs(text));
    assert_eq!(glyphs_of(text).len(), 9);
    assert_eq!(string_of(&glyphs_of(text)), text);
    assert_eq!(string_of(&Vec::new()), "");
}

#[test]
fn push_repeated_adds_copies() {
    let mut line = vec!['+'];
    push_repeated(&mut line, '-', 3);
    push_repeated(&mut line, '=', 0);
    assert_eq!(line, glyphs("+---"));
}

#[test]
fn push_text_and_push_glyphs_add_at_the_end() {
    let mut line = vec!['|'];
    push_text(&mut line, " ä ");
    push_glyphs(&mut line, &glyphs("|x"));
    assert_eq!(line, glyphs("| ä |x"));
}

#[test]
fn string_between_is_a_part_of_the_text() {
    let line = glyphs("käy\":\"välue");
    assert_eq!(string_between(&line, 0, 3), "käy");
    assert_eq!(string_between(&line, 6, 11), "välue");
    assert_eq!(string_between(&line, 4, 4), "");
}

#[test]
fn stands_at_compares_at_one_offset() {
    let text = glyphs("abcabc");
    assert!(stands_at(&text, &glyphs("bc"), 1));
    assert!(stands_at(&text, &glyphs("bc"), 4));
    assert!(!stands_at(&text, &glyphs("bc"), 0));
    assert!(!stands_at(&text, &glyphs("bc"), 5));
    assert!(!stands_at(&text, &glyphs("bc"), 7));
    assert!(stands_at(&text, &glyphs(""), 6));
    assert!(!stands_at(&text, &glyphs(""), 7));
}

#[test]
fn find_gives_the_first_occurrence_from_an_offset() {
    let text = glyphs("abcabc");
    assert_eq!(find(&text, &glyphs("bc"), 0), Some(1));
    assert_eq!(find(&text, &glyphs("bc"), 1), Some(1));
    assert_eq!(find(&text, &glyphs("bc"), 2), Some(4));
    assert_eq!(find(&text, &glyphs("bc"), 5), None);
    assert_eq!(find(&text, &glyphs("bc"), 9), None);
    assert_eq!(find(&text, &glyphs("x"), 0), None);
    assert_eq!(find(&text, &glyphs("abcabcd"), 0), None);
    assert_eq!(find(&text, &glyphs(""), 6), Some(6));
}

#[test]
fn split_at_keeps_empty_pieces() {
    let parts: Vec<String> = split_at(&glyphs("a&&b&"), '&').iter().map(string_of).collect();
    assert_eq!(parts, vec!["a", "", "b", ""]);
    let parts: Vec<String> = split_at(&glyphs(""), '&').iter().map(string_of).collect();
    assert_eq!(parts, vec![""]);
    for text in ["", "\n", "a\nb", "a\n\nb\n", "no feed"] {
        let parts: Vec<String> = split_at(&glyphs(text), '\n').iter().map(string_of).collect();
        let expected: Vec<&str> = text.split('\n').collect();
        assert_eq!(parts, expected);
    }
}

#[test]
fn join_words_puts_one_blank_between_words() {
    assert_eq!(join_words(&vec![]), "");
    assert_eq!(join_words(&vec![String::from("ls")]), "ls");
    assert_eq!(
        join_words(&vec![String::from("ls"), String::from("-l"), String::from("")]),
        "ls -l "
    );
}
