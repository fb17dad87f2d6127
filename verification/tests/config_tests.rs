use minigrep::Config;
use minigrep::ConfigError;

#[test]
fn should_create_config() {
    let config = Config::new(
        &[
            String::from("path"),
            String::from("query"),
            String::from("filename"),
        ],
        false,
    );
    assert!(config.is_ok());

    let unwrapped_config_value = config.unwrap();
    assert_eq!(unwrapped_config_value.filename, "filename");
    assert_eq!(unwrapped_config_value.query, "query");
}

#[test]
fn rejects_empty_argument_list() {
    let args: Vec<String> = Vec::new();
    let config = Config::new(&args, false);
    assert_eq!(config.err(), Some(ConfigError::InsufficientArguments));
}

#[test]
fn rejects_one_argument() {
    let args = vec![String::from("prog")];
    let config = Config::new(&args, false);
    assert_eq!(config.err(), Some(ConfigError::InsufficientArguments));
}

#[test]
fn rejects_two_arguments() {
    let args = vec![String::from("prog"), String::from("query")];
    let config = Config::new(&args, false);
    assert_eq!(config.err(), Some(ConfigError::InsufficientArguments));
}

#[test]
fn carries_arguments_through_unmodified() {
    let args = vec![
        String::from("prog"),
        String::from("needle in a haystack"),
        String::from("/tmp/hay.txt"),
        String::from("ignored extra"),
    ];
    let config = Config::new(&args, false).unwrap();
    assert_eq!(config.query, "needle in a haystack");
    assert_eq!(config.filename, "/tmp/hay.txt");
}

#[test]
fn environment_toggle_flips_case_sensitivity() {
    let args = vec![
        String::from("prog"),
        String::from("q"),
        String::from("f"),
    ];
    let sensitive = Config::new(&args, false).unwrap();
    assert!(sensitive.case_sensitive);
    let insensitive = Config::new(&args, true).unwrap();
    assert!(!insensitive.case_sensitive);
}
