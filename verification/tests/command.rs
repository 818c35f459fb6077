use managed_alias::command::{
    command_lines, digit_glyph, expand_word, push_decimal, replace, split_words,
};

fn glyphs(text: &str) -> Vec<char> {
    text.chars().collect()
}

fn text(glyphs: Vec<char>) -> String {
    glyphs.into_iter().collect()
}

fn strings(words: &[&str]) -> Vec<String> {
    words.iter().map(|w| String::from(*w)).collect()
}

#[test]
fn command_lines_without_arguments_are_the_plain_words() {
    assert_eq!(
        command_lines("echo $0 & ls  -l\t$*", &None),
        vec![strings(&["echo", "$0"]), strings(&["ls", "-l", "$*"])]
    );
}

#[test]
fn command_lines_put_arguments_in_the_place_of_markers() {
    let args = Some(strings(&["a", "b"]));
    assert_eq!(
        command_lines("echo $0 $1 & ls $* & git commit -m=$1$0", &args),
        vec![
            strings(&["echo", "a", "b"]),
            strings(&["ls", "a b"]),
            strings(&["git", "commit", "-m=ba"]),
        ]
    );
}

#[test]
fn command_lines_with_no_arguments_given_erase_the_marker_for_all() {
    let args = Some(strings(&[]));
    assert_eq!(
        command_lines("ls $* $0", &args),
        vec![strings(&["ls", "", "$0"])]
    );
}

#[test]
fn command_lines_keep_an_empty_command() {
    assert_eq!(
        command_lines("a && b", &None),
        vec![strings(&["a"]), strings(&[]), strings(&["b"])]
    );
    assert_eq!(command_lines("", &None), vec![strings(&[])]);
}

#[test]
fn markers_are_replaced_one_argument_after_the_other() {
    let args = strings(&["$1", "x"]);
    let all = glyphs("$1 x");
    assert_eq!(text(expand_word(&glyphs("$0"), &args, &all)), "x");
    let args = strings(&["a", "b"]);
    let all = glyphs("a b");
    assert_eq!(text(expand_word(&glyphs("$10"), &args, &all)), "b0");
    assert_eq!(text(expand_word(&glyphs("$2"), &args, &all)), "$2");
    assert_eq!(text(expand_word(&glyphs("[$*]"), &args, &all)), "[a b]");
}

#[test]
fn markers_with_two_digits() {
    let args = strings(&["0", "1", "2", "3", "4", "5", "6", "7", "8", "9", "ten"]);
    let all = glyphs("0 1 2 3 4 5 6 7 8 9 ten");
    assert_eq!(text(expand_word(&glyphs("$10"), &args, &all)), "10");
    assert_eq!(text(expand_word(&glyphs("$9$10"), &args, &all)), "910");
}

#[test]
fn command_lines_agree_with_the_standard_library() {
    let values = [
        "echo $0 & ls $*",
        "  a\u{a0}b \n c&&$1$0$1 $* ",
        "$$0 $0$ $*$* & x",
        "git commit -m $0 & git push $1 $2",
    ];
    let lists = [strings(&[]), strings(&["one"]), strings(&["$1", "two words", "$*"])];
    for value in values {
        for arg_vec in &lists {
            let mut expected: Vec<Vec<String>> = Vec::new();
            for command in value.split("&") {
                let mut out_args: Vec<String> =
                    command.split_whitespace().map(String::from).collect();
                let joined_args = arg_vec.join(" ");
                for (at, arg) in out_args.clone().iter().enumerate() {
                    let mut current = arg.clone();
                    for i in 0..arg_vec.len() {
                        let token = format!("${}", i);
                        current = current.replace(token.as_str(), arg_vec[i].as_str());
                    }
                    current = current.replace("$*", joined_args.as_str());
                    out_args[at] = current;
                }
                expected.push(out_args);
            }
            assert_eq!(command_lines(value, &Some(arg_vec.clone())), expected);
        }
    }
}

#[test]
fn split_words_breaks_at_every_kind_of_blank() {
    let parts: Vec<String> = split_words(&glyphs(" a\tbc\u{2003}d\n"))
        .into_iter()
        .map(text)
        .collect();
    assert_eq!(parts, strings(&["a", "bc", "d"]));
    assert!(split_words(&glyphs("  \t ")).is_empty());
    assert!(split_words(&glyphs("")).is_empty());
}

#[test]
fn replace_takes_occurrences_from_left_to_right() {
    assert_eq!(text(replace(&glyphs("aaa"), &glyphs("aa"), &glyphs("b"))), "ba");
    assert_eq!(text(replace(&glyphs("abcabc"), &glyphs("bc"), &glyphs(""))), "aa");
    assert_eq!(text(replace(&glyphs("abc"), &glyphs("x"), &glyphs("y"))), "abc");
    assert_eq!(text(replace(&glyphs("abc"), &glyphs("abc"), &glyphs("abcabc"))), "abcabc");
    assert_eq!(text(replace(&glyphs(""), &glyphs("a"), &glyphs("b"))), "");
    assert_eq!(text(replace(&glyphs("ab"), &glyphs("abc"), &glyphs("x"))), "ab");
}

#[test]
fn replace_with_an_empty_pattern_changes_nothing() {
    assert_eq!(text(replace(&glyphs("abc"), &glyphs(""), &glyphs("-"))), "abc");
}

#[test]
fn replace_agrees_with_the_standard_library() {
    let cases = [
        ("$0 $1 $0", "$0", "zero"),
        ("aaaa", "aa", "a"),
        ("abababa", "aba", "x"),
        ("ünïcödé ü", "ü", "ue"),
        ("no match", "xyz", "!"),
        ("$*$*", "$*", "$*$*"),
    ];
    for (input, pattern, with) in cases {
        assert_eq!(
            text(replace(&glyphs(input), &glyphs(pattern), &glyphs(with))),
            input.replace(pattern, with)
        );
    }
}

#[test]
fn decimal_digits_of_a_number() {
    for n in [0usize, 7, 9, 10, 11, 99, 100, 1234567890, usize::MAX] {
        let mut out = vec!['$'];
        push_decimal(&mut out, n);
        assert_eq!(text(out), format!("${}", n));
    }
}

#[test]
fn digit_glyph_is_the_digit() {
    let all: String = (0..10).map(digit_glyph).collect();
    assert_eq!(all, "0123456789");
}
