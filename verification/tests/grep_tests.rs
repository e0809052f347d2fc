use snippets::grep::{contains_str, search, search_case_insensitive, search_with_config, Config};

#[test]
fn one_result() {
    let query = "duct";
    let contents = "\
Rust:
safe, fast, productive.
Pick three.
Duct tape.";
    assert_eq!(vec!["safe, fast, productive."], search(query, contents))
}

#[test]
fn case_insensitive() {
    let query = "rUsT";
    let contents = "\
Rust:
safe, fast, productive.
Pick three.
Trust me.";

    assert_eq!(
        vec!["Rust:", "Trust me."],
        search_case_insensitive(query, contents)
    );
}

#[test]
fn search_of_empty_text_finds_nothing() {
    assert_eq!(search("x", ""), Vec::<&str>::new());
}

#[test]
fn empty_query_keeps_every_line() {
    assert_eq!(search("", "one\ntwo\nthree"), vec!["one", "two", "three"]);
}

#[test]
fn carriage_returns_are_stripped_from_lines() {
    assert_eq!(search("a", "ab\r\ncd\r\na end"), vec!["ab", "a end"]);
}

#[test]
fn substring_search_matches_exactly() {
    assert!(contains_str("hello", "ell"));
    assert!(contains_str("hello", ""));
    assert!(contains_str("hello", "hello"));
    assert!(!contains_str("hello", "hello!"));
    assert!(!contains_str("", "x"));
    assert!(!contains_str("abc", "cb"));
}

#[test]
fn config_takes_query_and_path_from_the_command_line() {
    let args = vec![
        "minigrep".to_string(),
        "needle".to_string(),
        "poem.txt".to_string(),
    ];
    let c = Config::build(args, true).unwrap();
    assert_eq!(c.query, "needle");
    assert_eq!(c.file_path, "poem.txt");
    assert!(c.ignore_case);
}

#[test]
fn config_without_a_query_is_refused() {
    let args = vec!["minigrep".to_string()];
    assert_eq!(Config::build(args, false).unwrap_err(), "Didn't get a query string");
}

#[test]
fn config_without_a_path_is_refused() {
    let args = vec!["minigrep".to_string(), "needle".to_string()];
    assert_eq!(Config::build(args, false).unwrap_err(), "Didn't get a file path");
}

#[test]
fn config_drives_the_choice_of_search() {
    let contents = "Rust:\nsafe, fast, productive.\nTrust me.";
    let exact = Config::build(
        vec!["minigrep".to_string(), "rUsT".to_string(), "poem.txt".to_string()],
        false,
    )
    .unwrap();
    assert_eq!(search_with_config(&exact, contents), Vec::<&str>::new());
    let folded = Config::build(
        vec!["minigrep".to_string(), "rUsT".to_string(), "poem.txt".to_string()],
        true,
    )
    .unwrap();
    assert_eq!(search_with_config(&folded, contents), vec!["Rust:", "Trust me."]);
}
