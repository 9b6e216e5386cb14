use matrix_lang::engine::search::{find_text_matches, replace_all, search_line, try_replace_all};

#[test]
fn every_match_with_its_context() {
    let r = find_text_matches("let x = foo + foo", 3, "Main", "foo", true);
    assert_eq!(r.len(), 2);
    assert_eq!((r[0].line, r[0].column), (3, 9));
    assert_eq!(r[0].script_name, "Main");
    assert_eq!(r[0].match_text, "foo");
    assert_eq!(r[0].context_before, "let x = ");
    assert_eq!(r[0].context_after, " + foo");
    assert_eq!(r[1].column, 15);
    assert_eq!(r[1].context_before, "x = foo + ");
    assert_eq!(r[1].context_after, "");
}

#[test]
fn case_is_ignored_when_asked() {
    let r = find_text_matches("FOO foo", 1, "S", "foo", false);
    assert_eq!(r.iter().map(|m| m.column).collect::<Vec<_>>(), vec![1, 5]);
    assert_eq!(r[0].match_text, "FOO");
    assert!(find_text_matches("FOO", 1, "S", "foo", true).is_empty());
}

#[test]
fn matches_may_overlap() {
    let r = find_text_matches("aaa", 1, "S", "aa", true);
    assert_eq!(r.iter().map(|m| m.column).collect::<Vec<_>>(), vec![1, 2]);
}

#[test]
fn searches_that_cannot_be_made() {
    assert!(search_line("abc", 1, "S", "", true).is_none());
    assert!(search_line("éé", 1, "S", "é", true).is_none());
    assert_eq!(search_line("x é y", 1, "S", "y", true).unwrap()[0].column, 6);
}

#[test]
fn replacing_with_and_without_case() {
    assert_eq!(replace_all("Foo foo FOO", "foo", "bar", true), "Foo bar FOO");
    assert_eq!(replace_all("Foo foo FOO", "foo", "bar", false), "bar bar bar");
    assert_eq!(replace_all("aaa", "aa", "b", true), "ba");
    assert_eq!(replace_all("aaa", "aa", "b", false), "ba");
    assert_eq!(replace_all("ab", "", "X", true), "XaXbX");
    assert!(try_replace_all("abc", "", "X", false).is_none());
    assert_eq!(try_replace_all("nothing here", "zz", "y", false), Some("nothing here".to_string()));
}
