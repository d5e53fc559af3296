use minigrep::{Config, SearchError};

fn args_of(parts: &[&str]) -> Vec<String> {
    parts.iter().map(|p| p.to_string()).collect()
}

#[test]
fn builds_config_from_three_arguments() {
    let args = args_of(&["minigrep", "needle", "haystack.txt"]);
    let config = Config::new(&args, false).unwrap();
    assert_eq!("needle", config.query);
    assert_eq!("haystack.txt", config.filename);
    assert!(config.case_sensitive);
}

#[test]
fn extra_arguments_are_ignored() {
    let args = args_of(&["minigrep", "needle", "haystack.txt", "extra"]);
    let config = Config::new(&args, false).unwrap();
    assert_eq!("needle", config.query);
    assert_eq!("haystack.txt", config.filename);
}

#[test]
fn toggle_makes_the_search_case_insensitive() {
    let args = args_of(&["minigrep", "needle", "haystack.txt"]);
    let config = Config::new(&args, true).unwrap();
    assert!(!config.case_sensitive);
}

#[test]
fn too_few_arguments_are_rejected() {
    let args = args_of(&["minigrep", "needle"]);
    let err = Config::new(&args, false).unwrap_err();
    assert!(matches!(err, SearchError::NotEnoughArguments));
    assert_eq!("not enough arguments", err.message());
}

#[test]
fn no_arguments_are_rejected() {
    let args: Vec<String> = Vec::new();
    assert!(matches!(
        Config::new(&args, false),
        Err(SearchError::NotEnoughArguments)
    ));
}

#[test]
fn config_selects_the_sensitive_search() {
    let args = args_of(&["minigrep", "Duct", "unused.txt"]);
    let config = Config::new(&args, false).unwrap();
    let contents = "Duct tape\nproduct\nDUCT";
    assert_eq!(vec!["Duct tape"], config.search(contents));
}

#[test]
fn config_selects_the_insensitive_search() {
    let args = args_of(&["minigrep", "Duct", "unused.txt"]);
    let config = Config::new(&args, true).unwrap();
    let contents = "Duct tape\nproduct\nDUCT";
    assert_eq!(vec!["Duct tape", "product", "DUCT"], config.search(contents));
}

#[test]
fn file_errors_carry_their_cause() {
    let open = SearchError::FileOpen("no such file".to_string());
    assert_eq!("no such file", open.message());
    let read = SearchError::FileRead("stream did not contain valid UTF-8".to_string());
    assert_eq!("stream did not contain valid UTF-8", read.message());
}
