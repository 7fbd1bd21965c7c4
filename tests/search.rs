use minigrep::{filter, matches_folded, search, search_case_insensitive};

#[test]
fn lib_case_sensitive() {
    let query = "duct";
    let contents = "\
Rust:
safe, fast, productive.
Pick three.
Duct tape.";

    assert_eq!(
        vec!["safe, fast, productive."],
        search(query, contents)
    )
}

#[test]
fn lib_case_insensitive() {
    let query = "rUst";
    let contents = "\
Rust:
safe, fast, productive.
Pick three.
Trust me.";

    assert_eq!(
        vec!["Rust:", "Trust me."],
        search_case_insensitive(query, contents),
    );
}

#[test]
fn empty_contents_give_no_lines() {
    assert!(search("anything", "").is_empty());
    assert!(search_case_insensitive("anything", "").is_empty());
    assert!(search("", "").is_empty());
}

#[test]
fn no_match_gives_no_lines() {
    assert!(search("zebra", "one\ntwo\nthree").is_empty());
}

#[test]
fn empty_query_selects_every_line() {
    assert_eq!(search("", "a\n\nb\n"), vec!["a", "", "b"]);
}

#[test]
fn final_line_feed_opens_no_line() {
    assert_eq!(search("x", "x1\nx2\n"), vec!["x1", "x2"]);
    assert_eq!(search("", "\n"), vec![""]);
}

#[test]
fn carriage_return_before_line_feed_is_dropped() {
    assert_eq!(search("b", "ab\r\ncb\r\nd"), vec!["ab", "cb"]);
    assert_eq!(search("\r", "a\r\nb\r"), vec!["b\r"]);
}

#[test]
fn case_differs_only_in_letters() {
    let contents = "Hello World\nhello world\nHELLO WORLD";
    assert_eq!(
        search_case_insensitive("hello WORLD", contents),
        vec!["Hello World", "hello world", "HELLO WORLD"]
    );
    assert_eq!(search("hello WORLD", contents), Vec::<&str>::new());
    assert_eq!(search("hello world", contents), vec!["hello world"]);
}

#[test]
fn case_insensitive_handles_non_ascii_letters() {
    assert_eq!(
        search_case_insensitive("ÄPFEL", "grüne äpfel\nbirnen\nÄpfel"),
        vec!["grüne äpfel", "Äpfel"]
    );
    assert!(search("ÄPFEL", "grüne äpfel\nbirnen").is_empty());
}

#[test]
fn filtering_twice_gives_the_same_lines() {
    let contents = "Rust:\nsafe, fast, productive.\nPick three.\nTrust me.";
    let first = search_case_insensitive("rUst", contents);
    let second = search_case_insensitive("rUst", contents);
    assert_eq!(first, second);
    let joined = first.join("\n");
    assert_eq!(search_case_insensitive("rUst", &joined), first);
    let once = search("st", contents);
    assert_eq!(search("st", &once.join("\n")), once);
}

#[test]
fn filter_follows_the_mode() {
    let contents = "Rust:\nsafe, fast, productive.\nPick three.\nTrust me.";
    assert_eq!(filter("rust", contents, true), vec!["Trust me."]);
    assert_eq!(filter("rust", contents, false), vec!["Rust:", "Trust me."]);
}

#[test]
fn folded_match_is_plain_containment() {
    assert!(matches_folded("trust me.", "rust"));
    assert!(!matches_folded("trust me.", "Rust"));
    assert!(matches_folded("abc", ""));
    assert!(!matches_folded("", "a"));
    assert!(!matches_folded("ab", "abc"));
}
