use rust_find::glob::{glob_match, glob_match_chars, match_char_class};

fn chars(s: &str) -> Vec<char> {
    s.chars().collect()
}

#[test]
fn glob_exact() {
    assert!(glob_match("foo.c", "foo.c", false));
    assert!(!glob_match("foo.c", "bar.c", false));
}

#[test]
fn glob_star() {
    assert!(glob_match("*.c", "foo.c", false));
    assert!(glob_match("*.c", ".c", false));
    assert!(!glob_match("*.c", "foo.h", false));
    assert!(glob_match("*", "anything", false));
    assert!(glob_match("*.*", "foo.bar", false));
}

#[test]
fn glob_question() {
    assert!(glob_match("foo?", "foox", false));
    assert!(!glob_match("foo?", "foo", false));
    assert!(!glob_match("foo?", "fooxx", false));
}

#[test]
fn glob_char_class() {
    assert!(glob_match("[abc].c", "a.c", false));
    assert!(glob_match("[abc].c", "b.c", false));
    assert!(!glob_match("[abc].c", "d.c", false));
    assert!(glob_match("[a-z].c", "m.c", false));
    assert!(!glob_match("[^abc]", "a", false));
    assert!(glob_match("[^abc]", "d", false));
}

#[test]
fn glob_ignore_case() {
    assert!(glob_match("*.C", "FOO.c", true));
    assert!(glob_match("FOO*", "foobar", true));
}

#[test]
fn case_counts_unless_ignored() {
    assert!(!glob_match("*.C", "FOO.c", false));
    assert!(!glob_match("FOO*", "foobar", false));
    // A range is lowered with the rest of the pattern.
    assert!(glob_match("[A-C]x", "bX", true));
    assert!(!glob_match("[^a]", "A", true));
    assert!(glob_match("[^a]", "A", false));
    // Only ASCII letters have a lower case here.
    assert!(!glob_match("\u{c4}", "\u{e4}", true));
}

#[test]
fn empty_pattern_and_text() {
    assert!(glob_match("", "", false));
    assert!(!glob_match("", "a", false));
    assert!(glob_match("*", "", false));
    assert!(!glob_match("?", "", false));
    assert!(!glob_match("[a]", "", false));
}

#[test]
fn stars_in_a_row() {
    assert!(glob_match("a**b", "ab", false));
    assert!(glob_match("a**b", "axxb", false));
    assert!(!glob_match("a**b", "axxc", false));
    assert!(glob_match_chars(&chars("*a*b*"), &chars("xxaybz")));
    assert!(!glob_match_chars(&chars("*a*b*"), &chars("xxbyaz")));
}

#[test]
fn star_crosses_slashes() {
    assert!(glob_match("./src/*.rs", "./src/a/b.rs", false));
}

#[test]
fn class_without_end_takes_the_rest() {
    assert!(glob_match("[abc", "b", false));
    assert!(!glob_match("[abc", "d", false));
    assert!(!glob_match("[abc", "ab", false));
    assert_eq!(match_char_class(&chars("abc"), 'c'), (true, &[][..]));
}

#[test]
fn class_edges() {
    // An empty class admits nothing, a negated one everything.
    assert!(!glob_match("[]", "a", false));
    assert!(glob_match("[^]", "a", false));
    // A dash at either end stands for itself.
    assert!(glob_match("[a-]", "-", false));
    assert!(glob_match("[-a]", "-", false));
    assert!(!glob_match("[a-]", "b", false));
    // A range that runs backwards is empty.
    assert!(!glob_match("[z-a]", "m", false));
    // A caret that is not first stands for itself.
    assert!(glob_match("[a^]", "^", false));
    assert_eq!(match_char_class(&chars("a-c]xy"), 'b'), (true, &['x', 'y'][..]));
    assert_eq!(match_char_class(&chars("^a-c]xy"), 'b'), (false, &['x', 'y'][..]));
}

#[test]
fn plain_text_matches_itself_alone() {
    assert!(glob_match("Makefile", "Makefile", false));
    assert!(!glob_match("Makefile", "Makefile2", false));
    assert!(!glob_match("Makefile", "makefile", false));
}

#[test]
fn star_as_prefix_and_suffix() {
    assert!(glob_match("lib*", "lib", false));
    assert!(glob_match("lib*", "libfoo.so", false));
    assert!(!glob_match("lib*", "alib", false));
    assert!(glob_match("*.so", "libfoo.so", false));
    assert!(!glob_match("*.so", "libfoo.so.1", false));
}

#[test]
fn patterns_concatenate() {
    assert!(glob_match("a[0-9]", "a7", false));
    assert!(glob_match("*b?", "xxbz", false));
    assert!(glob_match("a[0-9]*b?", "a7xxbz", false));
    assert!(!glob_match("a[0-9]*b?", "a7xxb", false));
}

#[test]
fn negated_class_is_complement() {
    for body in ["abc", "a-c", "", "x-", "0-9_"] {
        for c in ["a", "b", "d", "-", "_", "5", "^"] {
            let inside = glob_match(&format!("[{}]", body), c, false);
            let outside = glob_match(&format!("[^{}]", body), c, false);
            assert_ne!(inside, outside);
        }
    }
}
