use minigrep::Config;
use minigrep::search;
use minigrep::search_case_insensitive;
use minigrep::search_with_config;

#[test]
fn case_sensitive() {
    let query = "duct";
    let contents = "\
Rust:
safe, fast, productive.
Pick three.
Duct tape.";

    assert_eq!(vec!["safe, fast, productive."], search(query, contents));
}

#[test]
fn case_insensitive() {
    let query = "rUsT";
    let contents = "\
Rust:
safe, fast, productive.
Pick three.
Trust me.";

    assert_eq!(
        vec!["Rust:", "Trust me."],
        search_case_insensitive(query, contents),
    );
}

#[test]
fn empty_query_matches_every_line() {
    let contents = "first\nsecond\nthird";
    assert_eq!(vec!["first", "second", "third"], search("", contents));
}

#[test]
fn empty_contents_yield_no_lines() {
    let empty: Vec<&str> = Vec::new();
    assert_eq!(empty, search("anything", ""));
    assert_eq!(empty, search_case_insensitive("anything", ""));
    assert_eq!(empty, search("", ""));
}

#[test]
fn final_line_ending_adds_no_line() {
    let contents = "alpha\nbeta\n";
    assert_eq!(vec!["alpha", "beta"], search("", contents));
}

#[test]
fn carriage_return_line_feed_ends_a_line() {
    let contents = "alpha\r\nbeta";
    assert_eq!(vec!["alpha", "beta"], search("", contents));
}

#[test]
fn lone_carriage_return_stays_in_the_line() {
    let contents = "alpha\rbeta";
    assert_eq!(vec!["alpha\rbeta"], search("", contents));
}

#[test]
fn search_is_idempotent() {
    let query = "st";
    let contents = "Rust:\nsafe, fast, productive.\nPick three.\nTrust me.";
    let first = search(query, contents);
    let second = search(query, contents);
    assert_eq!(first, second);
    let first_insensitive = search_case_insensitive(query, contents);
    let second_insensitive = search_case_insensitive(query, contents);
    assert_eq!(first_insensitive, second_insensitive);
}

#[test]
fn insensitive_search_finds_at_least_as_many_lines() {
    let query = "rust";
    let contents = "Rust:\nsafe, fast, productive.\nPick three.\nTrust me.";
    let sensitive = search(query, contents);
    let insensitive = search_case_insensitive(query, contents);
    assert_eq!(vec!["Trust me."], sensitive);
    assert_eq!(vec!["Rust:", "Trust me."], insensitive);
    assert!(insensitive.len() >= sensitive.len());
}

#[test]
fn folding_applies_to_query_and_line_alike() {
    let query = "ABC";
    let contents = "xabcx\nnothing here";
    assert_eq!(vec!["xabcx"], search_case_insensitive(query, contents));
}

#[test]
fn query_longer_than_any_line_matches_nothing() {
    let empty: Vec<&str> = Vec::new();
    assert_eq!(empty, search("abcdef", "ab\ncd"));
}

#[test]
fn config_selects_sensitive_search() {
    let args = vec![
        String::from("prog"),
        String::from("duct"),
        String::from("unused"),
    ];
    let config = Config::new(&args, false).unwrap();
    let contents = "Rust:\nsafe, fast, productive.\nPick three.\nDuct tape.";
    assert_eq!(
        vec!["safe, fast, productive."],
        search_with_config(&config, contents)
    );
}

#[test]
fn config_selects_insensitive_search() {
    let args = vec![
        String::from("prog"),
        String::from("rUsT"),
        String::from("unused"),
    ];
    let config = Config::new(&args, true).unwrap();
    let contents = "Rust:\nsafe, fast, productive.\nPick three.\nTrust me.";
    assert_eq!(
        vec!["Rust:", "Trust me."],
        search_with_config(&config, contents)
    );
}
