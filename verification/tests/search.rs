use minigrep::{search, search_case_insensitive};

#[test]
fn case_sensitive() {
    let query = "duct";
    let contents = "\
Rust:
safe, fast, productive.
Pick three.
Duct tape";
    assert_eq!(vec!["safe, fast, productive."], search(query, contents));
}

#[test]
fn case_insensitive() {
    let query = "rUsT";
    let contents = "\
Rust:
safe, fast, productive.
Pick three.
Trust me.";
    assert_eq!(
        vec!["Rust:", "Trust me."],
        search_case_insensitive(query, contents)
    );
}

#[test]
fn output_order_equals_file_order() {
    let contents = "one a\ntwo\nthree a\nfour\nfive a";
    assert_eq!(vec!["one a", "three a", "five a"], search("a", contents));
}

#[test]
fn duplicate_lines_are_kept_in_order() {
    let contents = "echo\nother\necho";
    assert_eq!(vec!["echo", "echo"], search("echo", contents));
}

#[test]
fn empty_query_returns_every_line() {
    let contents = "alpha\n\ngamma";
    assert_eq!(vec!["alpha", "", "gamma"], search("", contents));
    assert_eq!(vec!["alpha", "", "gamma"], search_case_insensitive("", contents));
}

#[test]
fn absent_query_returns_nothing() {
    let contents = "alpha\nbeta\ngamma";
    assert_eq!(Vec::<&str>::new(), search("delta", contents));
    assert_eq!(Vec::<&str>::new(), search_case_insensitive("delta", contents));
}

#[test]
fn empty_contents_have_no_lines() {
    assert_eq!(Vec::<&str>::new(), search("", ""));
    assert_eq!(Vec::<&str>::new(), search("x", ""));
}

#[test]
fn final_line_needs_no_terminator() {
    assert_eq!(vec!["a", "b"], search("", "a\nb"));
    assert_eq!(vec!["a", "b"], search("", "a\nb\n"));
}

#[test]
fn carriage_return_before_line_feed_is_stripped() {
    assert_eq!(vec!["a", "b"], search("", "a\r\nb\r\n"));
    assert_eq!(Vec::<&str>::new(), search("\r", "a\r\nb\r\n"));
}

#[test]
fn lone_carriage_return_stays_in_the_line() {
    assert_eq!(vec!["a\rb", "c"], search("", "a\rb\nc"));
    assert_eq!(vec!["a\r"], search("", "a\r"));
}

#[test]
fn case_sensitive_search_is_verbatim() {
    let contents = "Rust\nrust\nRUST";
    assert_eq!(vec!["rust"], search("rust", contents));
}

#[test]
fn insensitive_match_emits_original_line() {
    let contents = "MiXeD case LiNe";
    assert_eq!(vec!["MiXeD case LiNe"], search_case_insensitive("mixed CASE", contents));
}

#[test]
fn folding_the_query_preserves_the_result() {
    let contents = "Rust:\nsafe, fast, productive.\nTrust me.";
    let lower = search_case_insensitive("rust", contents);
    assert_eq!(lower, search_case_insensitive("RUST", contents));
    assert_eq!(lower, search_case_insensitive("RuSt", contents));
}

#[test]
fn ascii_fold_leaves_other_characters_alone() {
    // The case fold is ASCII-only: accented capitals are not folded.
    let contents = "caf\u{e9}";
    assert_eq!(Vec::<&str>::new(), search_case_insensitive("CAF\u{c9}", contents));
    assert_eq!(vec!["caf\u{e9}"], search_case_insensitive("CAF\u{e9}", contents));
}

#[test]
fn matcher_is_pure() {
    let contents = "Rust:\nsafe, fast, productive.\nPick three.";
    assert_eq!(search("t", contents), search("t", contents));
    assert_eq!(
        search_case_insensitive("T", contents),
        search_case_insensitive("T", contents)
    );
}
