use minigrep::{
    contains_query, find_matches, search, search_case_insensitive, split_lines, Config,
    ConfigError,
};

fn args_of(items: &[&str]) -> Vec<String> {
    items.iter().map(|s| String::from(*s)).collect()
}

#[test]
fn should_create_a_new_config() {
    let args = vec![
        String::from("target/debug/minigrep"),
        String::from("hello"),
        String::from("test.txt"),
    ];

    let config = Config::new(&args, false).unwrap();

    assert_eq!(&args[1], &config.query);
    assert_eq!(&args[2], &config.filename);
}

#[test]
fn should_return_error_if_arguments_is_less_than_three() {
    let args = vec![String::from("target/debug/minigrep")];

    if let Err(e) = Config::new(&args, false) {
        assert_eq!(e.message(), "Arguments not complete");
    }
}

#[test]
fn case_sensitive() {
    let query = "duct";
    let content = "\
Rust:
safe, fast, productive,
Pick  three.
Duct tape.";

    assert_eq!(vec!["safe, fast, productive,"], search(query, content));
}

#[test]
fn case_insensitive() {
    let query = "RuSt";
    let content = "\
Rust:
safe, fast, productive,
Pick  three.
Trust me";

    assert_eq!(vec!["Rust:", "Trust me"], search_case_insensitive(query, content));
}

#[test]
fn config_fails_with_program_name_only() {
    let r = Config::new(&args_of(&["prog"]), false);
    assert_eq!(r.unwrap_err(), ConfigError::IncompleteArguments);
}

#[test]
fn config_fails_with_two_elements() {
    let r = Config::new(&args_of(&["prog", "hello"]), true);
    assert_eq!(r.unwrap_err(), ConfigError::IncompleteArguments);
}

#[test]
fn config_fails_with_no_elements() {
    let r = Config::new(&args_of(&[]), false);
    assert_eq!(r.unwrap_err(), ConfigError::IncompleteArguments);
}

#[test]
fn config_ignores_extra_arguments() {
    let c = Config::new(&args_of(&["prog", "q", "f.txt", "extra"]), false).unwrap();
    assert_eq!(c.query, "q");
    assert_eq!(c.filename, "f.txt");
}

#[test]
fn config_is_case_sensitive_without_variable() {
    let c = Config::new(&args_of(&["prog", "hello", "test.txt"]), false).unwrap();
    assert_eq!(c.query, "hello");
    assert_eq!(c.filename, "test.txt");
    assert!(c.case_sensitive);
}

#[test]
fn config_is_case_insensitive_with_variable() {
    let c = Config::new(&args_of(&["prog", "hello", "test.txt"]), true).unwrap();
    assert!(!c.case_sensitive);
}

#[test]
fn error_message_text() {
    assert_eq!(ConfigError::IncompleteArguments.message(), "Arguments not complete");
}

#[test]
fn empty_query_returns_every_line() {
    let content = "one\ntwo\r\n\nthree";
    assert_eq!(vec!["one", "two", "", "three"], search("", content));
}

#[test]
fn no_match_gives_empty_result() {
    assert!(search("zebra", "apple\nbanana\n").is_empty());
    assert!(search_case_insensitive("ZEBRA", "apple\nbanana\n").is_empty());
}

#[test]
fn empty_content_has_no_matches() {
    assert!(search("", "").is_empty());
    assert!(search_case_insensitive("", "").is_empty());
}

#[test]
fn single_line_found_iff_query_occurs() {
    assert_eq!(vec!["hello world"], search("lo w", "hello world"));
    assert!(search("low", "hello world").is_empty());
}

#[test]
fn matches_keep_source_order() {
    let content = "b1\na\nb2\nc\nb3";
    assert_eq!(vec!["b1", "b2", "b3"], search("b", content));
    assert_eq!(vec!["b1", "b2", "b3"], search_case_insensitive("B", content));
}

#[test]
fn case_insensitive_keeps_original_text() {
    assert_eq!(vec!["RUST Is Here"], search_case_insensitive("rust", "RUST Is Here\nnone"));
    assert!(search("rust", "RUST Is Here\nnone").is_empty());
}

#[test]
fn case_insensitive_folds_non_ascii() {
    assert_eq!(vec!["ÉCOLE"], search_case_insensitive("école", "ÉCOLE\nschool"));
}

#[test]
fn search_is_exact_about_case() {
    assert_eq!(vec!["Duct tape."], search("Duct", "duct\nDuct tape."));
}

#[test]
fn lines_split_on_newline_and_crlf() {
    assert_eq!(vec!["a", "b", "c"], split_lines("a\nb\r\nc\n"));
}

#[test]
fn lines_of_empty_text() {
    assert!(split_lines("").is_empty());
}

#[test]
fn lines_of_lone_newline() {
    assert_eq!(vec![""], split_lines("\n"));
}

#[test]
fn lines_keep_inner_empty_lines() {
    assert_eq!(vec!["a", "", "b"], split_lines("a\n\nb"));
}

#[test]
fn lines_keep_bare_carriage_return() {
    assert_eq!(vec!["a\r"], split_lines("a\r"));
    assert_eq!(vec!["x\ry"], split_lines("x\ry\n"));
}

#[test]
fn lines_without_terminator() {
    assert_eq!(vec!["just one line"], split_lines("just one line"));
}

#[test]
fn contains_query_cases() {
    assert!(contains_query("abc", ""));
    assert!(contains_query("", ""));
    assert!(!contains_query("", "a"));
    assert!(contains_query("abcabd", "abd"));
    assert!(!contains_query("ab", "abc"));
    assert!(contains_query("naïve café", "ve ca"));
}

#[test]
fn find_matches_follows_case_flag() {
    let content = "Rust\ntrust\nother";
    let exact = Config::new(&args_of(&["prog", "rust", "f"]), false).unwrap();
    assert_eq!(vec!["trust"], find_matches(&exact, content));
    let folded = Config::new(&args_of(&["prog", "rust", "f"]), true).unwrap();
    assert_eq!(vec!["Rust", "trust"], find_matches(&folded, content));
}
