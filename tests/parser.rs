use xerus::ftp::parser::{split_address, split_credentials};
use xerus::http::error::HttpError;

#[test]
fn test_command_parser_unparse() {
    let parser = xerus::http::parser::CommandArgument::new();
    assert_eq!(parser.get_url().len(), 0);
    assert_eq!(parser.get_concurrency(), None);
    assert_eq!(parser.get_output_path(), None);
    assert_eq!(parser.concurrency, None)
}

#[test]
fn parser_test_command_parser_unparse() {
    let parser = xerus::parser::CommandArgument::new();
    assert_eq!(parser.get_url(), None);
    assert_eq!(parser.get_concurrency(), None);
}

#[test]
fn http_arguments_take_defaults() {
    let mut parser = xerus::http::parser::CommandArgument::new();
    parser.apply(vec!["http://a/x".to_string()], None, None).unwrap();
    assert_eq!(parser.get_url(), vec!["http://a/x".to_string()]);
    assert_eq!(parser.get_concurrency(), Some(8));
    assert_eq!(parser.get_output_path(), Some(".".to_string()));
}

#[test]
fn http_arguments_need_a_url_and_a_concurrency() {
    let mut parser = xerus::http::parser::CommandArgument::new();
    assert_eq!(parser.apply(vec![], Some("out".to_string()), Some(4)), Err(HttpError::UserInput));
    assert_eq!(
        parser.apply(vec!["u".to_string()], None, Some(0)),
        Err(HttpError::UserInput)
    );
    assert_eq!(parser.get_output_path(), None);
    parser.apply(vec!["u".to_string()], Some("out".to_string()), Some(4)).unwrap();
    assert_eq!(parser.get_concurrency(), Some(4));
    assert_eq!(parser.get_output_path(), Some("out".to_string()));
}

#[test]
fn single_url_arguments() {
    let mut parser = xerus::parser::CommandArgument::new();
    assert_eq!(parser.apply(None, None, None), Err(HttpError::UserInput));
    parser.apply(Some("u".to_string()), None, Some(3)).unwrap();
    assert_eq!(parser.get_url(), Some("u".to_string()));
    assert_eq!(parser.get_concurrency(), Some(3));
    assert_eq!(parser.get_output_path(), Some(".".to_string()));
}

#[test]
fn ftp_arguments() {
    let mut parser = xerus::ftp::parser::CommandArgument::new();
    assert_eq!(parser.get_username(), None);
    assert_eq!(
        parser.apply(None, Some("110.123.25".to_string()), None, None),
        Err(HttpError::UserInput)
    );
    parser
        .apply(
            Some(("god".to_string(), "12346".to_string())),
            Some("110.123.25".to_string()),
            Some(("pub".to_string(), "a.txt".to_string())),
            Some("".to_string()),
        )
        .unwrap();
    assert_eq!(parser.get_username(), Some("god".to_string()));
    assert_eq!(parser.get_password(), Some("12346".to_string()));
    assert_eq!(parser.get_address(), Some("110.123.25".to_string()));
    assert_eq!(parser.get_target_path(), Some(("pub".to_string(), "a.txt".to_string())));
    assert_eq!(parser.get_output(), Some("".to_string()));
}

#[test]
fn torrent_arguments() {
    let mut parser = xerus::bittorrent::parser::CommandArgument::new();
    assert_eq!(parser.get_torrent(), "");
    parser.apply("a.torrent".to_string(), None);
    assert_eq!(parser.get_torrent(), "a.torrent");
    assert_eq!(parser.get_target_path(), "");
    parser.apply("b.torrent".to_string(), Some("out.bin".to_string()));
    assert_eq!(parser.get_target_path(), "out.bin");
}

#[test]
fn ftp_credentials_and_address_are_split() {
    assert_eq!(
        split_credentials("god:12346"),
        Some(("god".to_string(), "12346".to_string()))
    );
    assert_eq!(split_credentials("god"), None);
    assert_eq!(split_credentials("a:b:c"), None);
    assert_eq!(split_credentials(":"), Some((String::new(), String::new())));
    assert_eq!(split_address("110.123.25"), Some(("110.123.25".to_string(), None)));
    assert_eq!(
        split_address("host/pub/docs/a.txt"),
        Some(("host".to_string(), Some(("pub/docs".to_string(), "a.txt".to_string()))))
    );
    assert_eq!(
        split_address("host/a.txt"),
        Some(("host".to_string(), Some((String::new(), "a.txt".to_string()))))
    );
}
