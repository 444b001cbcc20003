use pj::text::{
    chars_of, contains, contains_in_order, contains_uppercase, copy_texts, ends_with, join,
    pad_right, same_chars, same_text, split, starts_with, text_before, trim,
};

fn strings(items: &[&str]) -> Vec<String> {
    items.iter().map(|s| s.to_string()).collect()
}

#[test]
fn chars_of_lists_the_characters() {
    let v = chars_of("héllo/wörld");
    assert_eq!(v.len(), 11);
    assert_eq!(v[1], 'é');
    assert_eq!(v, "héllo/wörld".chars().collect::<Vec<char>>());
    assert_eq!(chars_of(""), Vec::<char>::new());
}

#[test]
fn same_text_compares_characters() {
    assert!(same_text("abc", "abc"));
    assert!(same_text("", ""));
    assert!(!same_text("abc", "abd"));
    assert!(!same_text("abc", "ab"));
    assert!(!same_text("ab", "abc"));
    assert!(same_chars(&vec!['a', 'b'], &vec!['a', 'b']));
    assert!(!same_chars(&vec!['a', 'b'], &vec!['b', 'a']));
}

#[test]
fn starts_with_and_ends_with() {
    assert!(starts_with("work/backend", "work/"));
    assert!(starts_with("work", "work"));
    assert!(starts_with("work", ""));
    assert!(!starts_with("work", "work/"));
    assert!(!starts_with("work2", "work/"));
    assert!(ends_with("/bin/bash", "bash"));
    assert!(ends_with("/bin/bash", "sh"));
    assert!(ends_with("bash", ""));
    assert!(!ends_with("sh", "bash"));
    assert!(!ends_with("/bin/zsh", "bash"));
}

#[test]
fn contains_finds_a_run_anywhere() {
    assert!(contains("GraphQL: Name already exists on this account", "already exists"));
    assert!(contains("abc", "abc"));
    assert!(contains("abc", "c"));
    assert!(contains("abc", ""));
    assert!(contains("", ""));
    assert!(!contains("abc", "abcd"));
    assert!(!contains("abc", "ac"));
    assert!(!contains("", "a"));
}

#[test]
fn contains_in_order_is_a_subsequence_test() {
    assert!(contains_in_order("src/commands/add.rs", "scadd"));
    assert!(!contains_in_order("src/add.rs", "dsa"));
    assert!(!contains_in_order("src/commands/add.rs", "sdc"));
    assert!(contains_in_order("abc", ""));
    assert!(contains_in_order("", ""));
    assert!(!contains_in_order("", "a"));
    assert!(contains_in_order("abc", "abc"));
    assert!(!contains_in_order("abc", "abcc"));
    assert!(contains_in_order("aXbXc", "abc"));
    assert!(!contains_in_order("cba", "abc"));
    assert!(contains_in_order("aab", "ab"));
    assert!(!contains_in_order("foo", "Foo"));
}

#[test]
fn contains_in_order_takes_characters_that_lie_apart() {
    // "d" and "s" close "commands", "a" opens "add".
    assert!(contains_in_order("src/commands/add.rs", "dsa"));
    assert!(contains_in_order("src/commands/add.rs", "s/a."));
}

#[test]
fn contains_uppercase_sees_any_uppercase_character() {
    assert!(contains_uppercase("Foo"));
    assert!(contains_uppercase("foO"));
    assert!(contains_uppercase("été É"));
    assert!(!contains_uppercase("foo"));
    assert!(!contains_uppercase("foo/bar-1_2"));
    assert!(!contains_uppercase(""));
}

#[test]
fn trim_strips_whitespace_at_both_ends() {
    assert_eq!(trim("  a b\t\n"), "a b");
    assert_eq!(trim("a"), "a");
    assert_eq!(trim("   "), "");
    assert_eq!(trim(""), "");
    assert_eq!(trim("\u{a0}x\u{2003}"), "x");
    assert_eq!(trim(" tag one "), "tag one");
}

#[test]
fn trim_agrees_with_std() {
    for s in ["", " ", "a", " a", "a ", " a b ", "\t\r\n x \n", "x\u{3000}"] {
        assert_eq!(trim(s), s.trim());
    }
}

#[test]
fn split_keeps_empty_pieces() {
    assert_eq!(split("a,,b,", ','), strings(&["a", "", "b", ""]));
    assert_eq!(split("", ','), strings(&[""]));
    assert_eq!(split("abc", ','), strings(&["abc"]));
    assert_eq!(split(",", ','), strings(&["", ""]));
    assert_eq!(split("a, b", ','), strings(&["a", " b"]));
}

#[test]
fn split_agrees_with_std() {
    for s in ["", ",", "a", "a,b", ",a,,b,", "work/backend, personal ,x"] {
        let expected: Vec<String> = s.split(',').map(|p| p.to_string()).collect();
        assert_eq!(split(s, ','), expected);
    }
}

#[test]
fn join_puts_the_separator_between_neighbours() {
    assert_eq!(join(&strings(&["a", "b", "c"]), ", "), "a, b, c");
    assert_eq!(join(&strings(&["a"]), ", "), "a");
    assert_eq!(join(&strings(&[]), ", "), "");
    assert_eq!(join(&strings(&["", ""]), " "), " ");
    assert_eq!(join(&strings(&["a", "b"]), ""), "ab");
}

#[test]
fn join_undoes_split() {
    for s in ["", ",", "a", "a,b", ",a,,b,"] {
        assert_eq!(join(&split(s, ','), ","), s);
    }
}

#[test]
fn pad_right_fills_up_with_spaces() {
    assert_eq!(pad_right("editor", 18), "editor            ");
    assert_eq!(pad_right("editor", 18).chars().count(), 18);
    assert_eq!(pad_right("gh_create_on_add", 18), "gh_create_on_add  ");
    assert_eq!(pad_right("abc", 3), "abc");
    assert_eq!(pad_right("abcd", 3), "abcd");
    assert_eq!(pad_right("", 2), "  ");
    assert_eq!(pad_right("é", 3), "é  ");
}

#[test]
fn text_before_is_dictionary_order() {
    assert!(text_before("a", "b"));
    assert!(text_before("", "a"));
    assert!(text_before("ab", "abc"));
    assert!(text_before("abc", "abd"));
    assert!(text_before("Z", "a"));
    assert!(!text_before("a", "a"));
    assert!(!text_before("b", "a"));
    assert!(!text_before("abc", "ab"));
    assert!(!text_before("", ""));
}

#[test]
fn text_before_agrees_with_string_order() {
    let samples = ["", "a", "ab", "b", "work", "work/backend", "Work", "é", "z", "日本", "~"];
    for a in samples {
        for b in samples {
            assert_eq!(text_before(a, b), a < b);
        }
    }
}

#[test]
fn copy_texts_copies_each_string() {
    let items = strings(&["a", "", "bc"]);
    assert_eq!(copy_texts(&items), items);
    assert_eq!(copy_texts(&[]), Vec::<String>::new());
}
