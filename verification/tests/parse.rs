use packagesbot::telegram::bot::Command;

#[test]
fn test_parse_command() {
    let data = vec![
        ("/rust abc", "rust", "abc"),
        ("/rust", "rust", ""),
        ("/rust     ", "rust", ""),
        ("/rust     a b c", "rust", "a b c"),
        ("/rust     a b c    ", "rust", "a b c"),
    ];

    for sample in &data {
        let cmd = Command::parse(sample.0).unwrap();
        assert_eq!(cmd.name, sample.1);
        assert_eq!(cmd.query, sample.2);
    }
}

#[test]
fn test_parse_invalid_command() {
    let data = vec!["@rust abc", "rust abc"];

    for sample in &data {
        assert!(Command::parse(sample).is_none());
    }
}

#[test]
fn test_parse_keeps_inner_whitespace() {
    let cmd = Command::parse("/go  a  b ").unwrap();
    assert_eq!(cmd.name, "go");
    assert_eq!(cmd.query, "a  b");
}

#[test]
fn test_parse_name_with_digits_and_underscore() {
    let cmd = Command::parse("/go_2x query").unwrap();
    assert_eq!(cmd.name, "go_2x");
    assert_eq!(cmd.query, "query");
}

#[test]
fn test_parse_rejects_bare_slash() {
    assert!(Command::parse("/").is_none());
    assert!(Command::parse("/ rust").is_none());
    assert!(Command::parse("").is_none());
}
