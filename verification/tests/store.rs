use managed_alias::store::{format_entry, get_entries, Store};
use std::collections::HashMap;

fn pairs(store: &Store) -> Vec<(&str, &str)> {
    store.entries.iter().map(|(name, value)| (name.as_str(), value.as_str())).collect()
}

#[test]
fn format_entry_puts_the_separator_between_name_and_value() {
    assert_eq!(
        format_entry(&String::from("ll"), &String::from("ls -l")),
        "ll\":\"ls -l\n"
    );
    assert_eq!(format_entry(&String::new(), &String::new()), "\":\"\n");
}

#[test]
fn get_entries_reads_one_binding_per_line() {
    let store = get_entries("ll\":\"ls -l\nproj\":\"/home/u/project\n");
    assert_eq!(pairs(&store), vec![("ll", "ls -l"), ("proj", "/home/u/project")]);
}

#[test]
fn get_entries_of_empty_text_is_empty() {
    assert!(get_entries("").entries.is_empty());
    assert!(get_entries("\n\n").entries.is_empty());
}

#[test]
fn get_entries_reads_a_last_line_without_line_feed() {
    let store = get_entries("a\":\"1\nb\":\"2");
    assert_eq!(pairs(&store), vec![("a", "1"), ("b", "2")]);
}

#[test]
fn get_entries_skips_lines_without_separator() {
    let store = get_entries("no binding here\na\":\"1\n\"a\":1\n");
    assert_eq!(pairs(&store), vec![("a", "1")]);
}

#[test]
fn get_entries_lets_the_last_binding_of_a_name_count() {
    let store = get_entries("a\":\"1\nb\":\"2\na\":\"3\n");
    assert_eq!(pairs(&store), vec![("a", "3"), ("b", "2")]);
}

#[test]
fn get_entries_ends_the_value_at_a_second_separator() {
    let store = get_entries("k\":\"v\":\"w\n");
    assert_eq!(pairs(&store), vec![("k", "v")]);
    let store = get_entries("k\":\":\"v\n");
    assert_eq!(pairs(&store), vec![("k", ":\"v")]);
}

#[test]
fn get_entries_accepts_empty_names_and_values() {
    let store = get_entries("\":\"v\nk\":\"\n");
    assert_eq!(pairs(&store), vec![("", "v"), ("k", "")]);
}

#[test]
fn get_entries_agrees_with_splitting_by_the_standard_library() {
    let texts = [
        "ll\":\"ls -l\nproj\":\"/home/u/project\n",
        "a\":\"1\nb\":\"2\na\":\"3\n",
        "k\":\"v\":\"w\nplain\n\":\"\n\"\":\"\"\n",
        "x\":\":\"y\nä\":\"ö ü\n\n\nlast\":\"one",
        "\":",
        "a\":\"b\":",
    ];
    for text in texts {
        let mut expected: HashMap<String, String> = HashMap::new();
        for line in text.split('\n') {
            let mut pair = line.split("\":\"");
            let key = pair.next();
            let val = pair.next();
            if key.is_some() && val.is_some() {
                expected.insert(String::from(key.unwrap()), String::from(val.unwrap()));
            }
        }
        let store = get_entries(text);
        assert_eq!(store.entries.len(), expected.len());
        for (name, value) in &store.entries {
            assert_eq!(expected.get(name), Some(value));
        }
    }
}

#[test]
fn lookup_finds_the_value_of_a_name() {
    let store = get_entries("ll\":\"ls -l\nproj\":\"/home/u/project\n");
    assert_eq!(store.lookup("proj"), Some(String::from("/home/u/project")));
    assert_eq!(store.lookup("ll"), Some(String::from("ls -l")));
    assert_eq!(store.lookup("l"), None);
    assert_eq!(Store::new().lookup("ll"), None);
}

#[test]
fn set_adds_a_new_name_at_the_end() {
    let mut store = get_entries("a\":\"1\n");
    store.set("b", String::from("2"));
    assert_eq!(pairs(&store), vec![("a", "1"), ("b", "2")]);
    assert_eq!(store.lookup("b"), Some(String::from("2")));
}

#[test]
fn set_replaces_the_value_of_a_known_name_in_place() {
    let mut store = get_entries("a\":\"1\nb\":\"2\n");
    store.set("a", String::from("3"));
    assert_eq!(pairs(&store), vec![("a", "3"), ("b", "2")]);
}

#[test]
fn delete_takes_a_binding_away() {
    let mut store = get_entries("a\":\"1\nb\":\"2\nc\":\"3\n");
    store.delete("b");
    assert_eq!(pairs(&store), vec![("a", "1"), ("c", "3")]);
    assert_eq!(store.lookup("b"), None);
    store.delete("missing");
    assert_eq!(pairs(&store), vec![("a", "1"), ("c", "3")]);
}

#[test]
fn position_is_the_index_of_the_name_or_the_length() {
    let store = get_entries("a\":\"1\nb\":\"2\n");
    assert_eq!(store.position(&String::from("a")), 0);
    assert_eq!(store.position(&String::from("b")), 1);
    assert_eq!(store.position(&String::from("c")), 2);
}

#[test]
fn read_line_binds_what_the_line_binds() {
    let mut store = Store::new();
    store.read_line(&"a\":\"1".chars().collect());
    store.read_line(&"nothing".chars().collect());
    store.read_line(&"a\":\"2".chars().collect());
    assert_eq!(pairs(&store), vec![("a", "2")]);
}

#[test]
fn to_text_writes_one_line_per_binding() {
    let mut store = Store::new();
    assert_eq!(store.to_text(), "");
    store.set("ll", String::from("ls -l"));
    store.set("proj", String::from("/home/u/project"));
    assert_eq!(store.to_text(), "ll\":\"ls -l\nproj\":\"/home/u/project\n");
}

#[test]
fn text_that_was_written_reads_back() {
    let mut store = Store::new();
    store.set("ll", String::from("ls -l"));
    store.set("proj", String::from("/home/u/project"));
    store.set("ll", String::from("ls -la"));
    let again = get_entries(&store.to_text());
    assert_eq!(pairs(&again), vec![("ll", "ls -la"), ("proj", "/home/u/project")]);
}
