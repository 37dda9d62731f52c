use smtp_ehlo::data_types::{EhloParam, SyntaxError};
use smtp_ehlo::ehlo::parse_ehlo_response;
use smtp_ehlo::reply::parse_capability_line;
use smtp_ehlo::response::Response;

fn reply(lines: &[&str]) -> Response {
    Response::new(true, lines.iter().map(|line| line.to_string()).collect())
}

#[test]
fn simple_case() {
    let response = Response::new(true, vec!["1aim.test".to_owned()]);
    let ehlo_data = parse_ehlo_response(&response).unwrap();

    assert_eq!(ehlo_data.domain().as_str(), "1aim.test");
    assert!(ehlo_data.capability_map().is_empty());
}

#[test]
fn allow_greeting() {
    let response = Response::new(true, vec!["1aim.test says hy".to_owned()]);
    let ehlo_data = parse_ehlo_response(&response).unwrap();

    assert_eq!(ehlo_data.domain().as_str(), "1aim.test");
    assert!(ehlo_data.capability_map().is_empty());
}

#[test]
fn can_have_capabilities() {
    let response = Response::new(
        true,
        vec![
            "1aim.test says hy".to_owned(),
            "SMTPUTF8".to_owned(),
            "MIME8".to_owned(),
        ],
    );
    let ehlo_data = parse_ehlo_response(&response).unwrap();

    assert_eq!(ehlo_data.domain().as_str(), "1aim.test");
    assert!(ehlo_data.has_capability("SMTPUTF8"));
    assert!(ehlo_data.get_capability_params("SMTPUTF8").unwrap().is_empty());
    assert!(ehlo_data.has_capability("MIME8"));
    assert!(ehlo_data.get_capability_params("MIME8").unwrap().is_empty());
    assert_eq!(ehlo_data.capability_map().len(), 2)
}

#[test]
fn capabilities_can_have_parameter() {
    let response = Response::new(
        true,
        vec!["1aim.test says hy".to_owned(), "X-NOT-A-ROBOT ENABLED".to_owned()],
    );
    let ehlo_data = parse_ehlo_response(&response).unwrap();

    assert_eq!(ehlo_data.domain().as_str(), "1aim.test");
    assert!(ehlo_data.has_capability("X-NOT-A-ROBOT"));
    let params = ehlo_data.get_capability_params("X-NOT-A-ROBOT").unwrap();
    assert_eq!(params.len(), 1);
    assert_eq!(params[0].as_str(), "ENABLED");
}

#[test]
fn malformed_auth_ignored() {
    let response = Response::new(
        true,
        vec![
            "1aim.test says hy".to_owned(),
            "AUTH PLAIN LOGIN".to_owned(),
            "AUTH=PLAIN".to_owned(),
        ],
    );
    let ehlo_data = parse_ehlo_response(&response).unwrap();

    assert_eq!(ehlo_data.domain().as_str(), "1aim.test");
    assert!(ehlo_data.has_capability("AUTH"));
    assert_eq!(
        Some(
            [
                EhloParam::parse("PLAIN").unwrap(),
                EhloParam::parse("LOGIN").unwrap()
            ]
            .as_ref()
        ),
        ehlo_data.get_capability_params("AUTH")
    );
    assert_eq!(ehlo_data.capability_map().len(), 1)
}

#[test]
fn malformed_non_auth_error() {
    let response = Response::new(
        true,
        vec![
            "1aim.test says hy".to_owned(),
            "X-NOT-A-ROBOT ENABLED".to_owned(),
            "X-NOT-A-ROBOT=ENABLED".to_owned(),
        ],
    );
    assert_eq!(
        SyntaxError::EsmtpKeyword,
        parse_ehlo_response(&response).unwrap_err()
    );
}

#[test]
fn single_line_domain_is_kept_as_written() {
    let ehlo_data = parse_ehlo_response(&reply(&["Mail.Example.test"])).unwrap();
    assert_eq!(ehlo_data.domain().as_str(), "Mail.Example.test");
    assert_eq!(ehlo_data.capability_map().len(), 0);
}

#[test]
fn greeting_text_changes_nothing() {
    let plain = parse_ehlo_response(&reply(&["example.test", "PIPELINING", "SIZE 1000"])).unwrap();
    let greeted = parse_ehlo_response(&reply(&[
        "example.test says hi = [to] you",
        "PIPELINING",
        "SIZE 1000",
    ]))
    .unwrap();
    assert_eq!(plain.domain(), greeted.domain());
    assert_eq!(greeted.domain().as_str(), "example.test");
    assert_eq!(plain.capability_map().len(), 2);
    assert_eq!(greeted.capability_map().len(), 2);
    assert_eq!(
        plain.get_capability_params("SIZE"),
        greeted.get_capability_params("SIZE")
    );
    assert_eq!(greeted.get_capability_params("SIZE").unwrap()[0].as_str(), "1000");
}

#[test]
fn first_token_must_be_a_domain() {
    for first in ["", " example.test", "-example.test", "example..test", "exa_mple.test hi", "example.test."] {
        assert_eq!(
            SyntaxError::Domain,
            parse_ehlo_response(&reply(&[first, "SMTPUTF8"])).unwrap_err(),
            "{:?}",
            first
        );
    }
}

#[test]
fn domain_error_comes_before_any_line_error() {
    let response = reply(&["not_a_domain", "BAD=KEYWORD", "SIZE \u{7f}"]);
    assert_eq!(SyntaxError::Domain, parse_ehlo_response(&response).unwrap_err());
}

#[test]
fn last_line_for_a_keyword_wins() {
    let ehlo_data = parse_ehlo_response(&reply(&[
        "example.test",
        "SIZE 1000",
        "AUTH PLAIN",
        "size 2000 3000",
    ]))
    .unwrap();
    assert_eq!(ehlo_data.capability_map().len(), 2);
    let size = ehlo_data.get_capability_params("SIZE").unwrap();
    assert_eq!(size.len(), 2);
    assert_eq!(size[0].as_str(), "2000");
    assert_eq!(size[1].as_str(), "3000");
    let auth = ehlo_data.get_capability_params("AUTH").unwrap();
    assert_eq!(auth.len(), 1);
    assert_eq!(auth[0].as_str(), "PLAIN");
}

#[test]
fn keywords_are_found_in_any_case() {
    let ehlo_data = parse_ehlo_response(&reply(&["example.test", "StartTls", "8bitmime"])).unwrap();
    assert!(ehlo_data.has_capability("STARTTLS"));
    assert!(ehlo_data.has_capability("starttls"));
    assert!(ehlo_data.has_capability("8BITMIME"));
    assert!(!ehlo_data.has_capability("SMTPUTF8"));
    assert!(!ehlo_data.has_capability("START TLS"));
    assert!(!ehlo_data.has_capability(""));
    assert!(ehlo_data.get_capability_params("sTARTtLS").unwrap().is_empty());
    assert_eq!(None, ehlo_data.get_capability_params("AUTH"));
    assert_eq!(None, ehlo_data.get_capability_params("AUTH=PLAIN"));
}

#[test]
fn legacy_auth_is_passed_over_in_any_case_and_alone() {
    let ehlo_data = parse_ehlo_response(&reply(&[
        "example.test",
        "auth=LOGIN",
        "Auth= PLAIN \u{1}",
        "AUTH=PLAIN=LOGIN",
        "AUTH=",
    ]))
    .unwrap();
    assert!(ehlo_data.capability_map().is_empty());
    assert!(!ehlo_data.has_capability("AUTH"));
}

#[test]
fn legacy_auth_line_does_not_replace_the_sound_one() {
    let ehlo_data = parse_ehlo_response(&reply(&[
        "example.test",
        "AUTH=LOGIN",
        "AUTH PLAIN LOGIN",
        "AUTH=PLAIN",
    ]))
    .unwrap();
    let auth = ehlo_data.get_capability_params("AUTH").unwrap();
    assert_eq!(auth.len(), 2);
    assert_eq!(auth[0].as_str(), "PLAIN");
    assert_eq!(auth[1].as_str(), "LOGIN");
}

#[test]
fn other_malformed_keywords_are_errors() {
    for line in ["", " SIZE", "AUTHX=PLAIN", "AUT=H", "=AUTH", "AUTH!", "AUTH!=x", "-AUTH", "SIZE=10 20", "SM\u{e9}TP"] {
        assert_eq!(
            SyntaxError::EsmtpKeyword,
            parse_ehlo_response(&reply(&["example.test", line])).unwrap_err(),
            "{:?}",
            line
        );
    }
}

#[test]
fn malformed_parameters_are_errors() {
    for line in ["SIZE  1000", "SIZE 1000 ", "SIZE ", "SIZE 10\t00", "SIZE caf\u{e9}", "AUTH PLAIN \u{7f}"] {
        assert_eq!(
            SyntaxError::EsmtpValue,
            parse_ehlo_response(&reply(&["example.test", line])).unwrap_err(),
            "{:?}",
            line
        );
    }
}

#[test]
fn parameters_may_hold_any_printable_character() {
    let ehlo_data = parse_ehlo_response(&reply(&["example.test", "X-ANY !~=[]\\ a=b"])).unwrap();
    let params = ehlo_data.get_capability_params("X-ANY").unwrap();
    assert_eq!(params.len(), 2);
    assert_eq!(params[0].as_str(), "!~=[]\\");
    assert_eq!(params[1].as_str(), "a=b");
}

#[test]
fn first_malformed_line_decides_the_error() {
    let response = reply(&["example.test", "SIZE 1000", "SIZE  1", "BAD=KEYWORD"]);
    assert_eq!(SyntaxError::EsmtpValue, parse_ehlo_response(&response).unwrap_err());
    let response = reply(&["example.test", "BAD=KEYWORD", "SIZE  1"]);
    assert_eq!(SyntaxError::EsmtpKeyword, parse_ehlo_response(&response).unwrap_err());
}

#[test]
fn keyword_error_comes_before_parameter_error_on_one_line() {
    let response = reply(&["example.test", "BAD=KEYWORD  x"]);
    assert_eq!(SyntaxError::EsmtpKeyword, parse_ehlo_response(&response).unwrap_err());
}

#[test]
fn reading_twice_gives_the_same() {
    let response = reply(&["example.test hello", "AUTH PLAIN LOGIN", "AUTH=PLAIN", "SIZE 1000"]);
    let first = parse_ehlo_response(&response).unwrap();
    let second = parse_ehlo_response(&response).unwrap();
    assert_eq!(first.domain(), second.domain());
    assert_eq!(first.capability_map().len(), second.capability_map().len());
    for name in ["AUTH", "SIZE", "MIME8"] {
        assert_eq!(first.get_capability_params(name), second.get_capability_params(name));
    }
    let broken = reply(&["example.test", "X=1"]);
    assert_eq!(
        parse_ehlo_response(&broken).unwrap_err(),
        parse_ehlo_response(&broken).unwrap_err()
    );
    assert_eq!(response, reply(&["example.test hello", "AUTH PLAIN LOGIN", "AUTH=PLAIN", "SIZE 1000"]));
}

#[test]
fn reading_does_not_look_at_the_classification() {
    let lines = vec!["example.test".to_owned(), "SIZE 1".to_owned()];
    let refused = Response::new(false, lines);
    let ehlo_data = parse_ehlo_response(&refused).unwrap();
    assert_eq!(ehlo_data.domain().as_str(), "example.test");
    assert!(ehlo_data.has_capability("SIZE"));
}

#[test]
fn one_line_read_alone() {
    let (keyword, params) = parse_capability_line("x-not-a-robot ENABLED yes").unwrap().unwrap();
    assert_eq!(keyword.as_str(), "X-NOT-A-ROBOT");
    assert_eq!(params.len(), 2);
    assert_eq!(params[0].as_str(), "ENABLED");
    assert_eq!(params[1].as_str(), "yes");
    assert!(parse_capability_line("AUTH=PLAIN LOGIN").unwrap().is_none());
    assert_eq!(SyntaxError::EsmtpKeyword, parse_capability_line("X=PLAIN").unwrap_err());
    assert_eq!(SyntaxError::EsmtpValue, parse_capability_line("X  PLAIN").unwrap_err());
    let (keyword, params) = parse_capability_line("PIPELINING").unwrap().unwrap();
    assert_eq!(keyword.as_str(), "PIPELINING");
    assert!(params.is_empty());
}
