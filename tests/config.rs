use minigrep::Config;

#[test]
fn creates_a_new_config() {
    let query = String::from("Foo");
    let filename = String::from("bar.txt");

    let args = vec![
        String::from("some/binary"),
        query.clone(),
        filename.clone(),
    ];

    let result = Config::new(args, false).unwrap();

    assert_eq!(result.query, query);
    assert_eq!(result.filename, filename)
}

#[test]
fn config_case_sensitive() {
    let query = String::from("Foo");
    let filename = String::from("bar.txt");

    let args = vec![
        String::from("some/binary"),
        query.clone(),
        filename.clone(),
    ];
    let result = Config::new(args, true).unwrap();

    assert!(result.case_sensitive);
}

#[test]
fn config_case_insensitive() {
    let query = String::from("Foo");
    let filename = String::from("bar.txt");

    let args = vec![
        String::from("some/binary"),
        query.clone(),
        filename.clone(),
    ];
    let result = Config::new(args, false).unwrap();

    assert!(!result.case_sensitive);
}

#[test]
fn fails_when_no_query() -> Result<(), String> {
    let args = vec![
        String::from("some/binary"),
    ];

    if let Err(e) = Config::new(args, true) {
        assert_eq!(e, "Didn't get a query string");
        Ok(())
    } else {
        Err(String::from("Config::new() does not fail when missing arguments"))
    }
}

#[test]
fn fails_when_no_file() -> Result<(), String> {
    let query = String::from("Foo");

    let args = vec![
        String::from("some/binary"),
        query.clone(),
    ];

    if let Err(e) = Config::new(args, true) {
        assert_eq!(e, "Didn't get a file name");
        Ok(())
    } else {
        Err(String::from("Config::new() does not fail when missing arguments"))
    }
}

#[test]
fn program_name_alone_is_rejected() {
    let args = vec![String::from("prog")];
    assert_eq!(Config::new(args, false).err(), Some("Didn't get a query string"));
}

#[test]
fn empty_argument_list_is_rejected() {
    let args: Vec<String> = Vec::new();
    assert_eq!(Config::new(args, true).err(), Some("Didn't get a query string"));
}

#[test]
fn extra_arguments_are_ignored() {
    let args = vec![
        String::from("prog"),
        String::from("needle"),
        String::from("hay.txt"),
        String::from("more"),
    ];
    let config = Config::new(args, true).unwrap();
    assert_eq!(config.query, "needle");
    assert_eq!(config.filename, "hay.txt");
    assert!(config.case_sensitive);
}

#[test]
fn empty_query_is_rejected() {
    let args = vec![
        String::from("prog"),
        String::new(),
        String::from("hay.txt"),
    ];
    assert_eq!(Config::new(args, true).err(), Some("Didn't get a query string"));
}

#[test]
fn empty_file_name_is_rejected() {
    let args = vec![
        String::from("prog"),
        String::from("needle"),
        String::new(),
    ];
    assert_eq!(Config::new(args, false).err(), Some("Didn't get a file name"));
}
