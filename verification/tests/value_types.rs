use smtp_ehlo::data_types::{AddressLiteral, Capability, ClientId, Domain, EhloParam, SyntaxError};
use smtp_ehlo::ehlo_data::{CapabilityMap, EhloData};

#[test]
fn domains_accepted() {
    for text in ["1aim.test", "a", "A.b.C", "x-y.z9", "a--b.c", "localhost", "9.9"] {
        let domain = Domain::parse(text).unwrap();
        assert_eq!(domain.as_str(), text);
    }
}

#[test]
fn domains_refused() {
    for text in ["", ".", "a.", ".a", "a..b", "-a.b", "a-.b", "a.-b", "a.b-", "a b", "a_b", "[1.2.3.4]", "b\u{fc}cher.test"] {
        assert_eq!(Some(SyntaxError::Domain), Domain::parse(text).err(), "{:?}", text);
    }
}

#[test]
fn address_literals_accepted() {
    for text in ["[127.0.0.1]", "[IPv6:::1]", "[x]"] {
        let literal = AddressLiteral::parse(text).unwrap();
        assert_eq!(literal.as_str(), text);
    }
}

#[test]
fn address_literals_refused() {
    for text in ["", "[]", "[", "]", "127.0.0.1", "[127.0.0.1", "127.0.0.1]", "[1 2]", "[[1]]", "[1\\2]", "[1]]", "[\u{e9}]"] {
        assert_eq!(Some(SyntaxError::Domain), AddressLiteral::parse(text).err(), "{:?}", text);
    }
}

#[test]
fn client_id_tells_the_two_forms_apart() {
    match ClientId::parse("client.test").unwrap() {
        ClientId::Domain(domain) => assert_eq!(domain.as_str(), "client.test"),
        other => panic!("{:?}", other),
    }
    match ClientId::parse("[192.0.2.1]").unwrap() {
        ClientId::AddressLiteral(literal) => assert_eq!(literal.as_str(), "[192.0.2.1]"),
        other => panic!("{:?}", other),
    }
    assert_eq!(ClientId::parse("client.test").unwrap().as_str(), "client.test");
    assert_eq!(ClientId::parse("[192.0.2.1]").unwrap().as_str(), "[192.0.2.1]");
    assert_eq!(Some(SyntaxError::Domain), ClientId::parse("client test").err());
    assert_eq!(Some(SyntaxError::Domain), ClientId::parse("").err());
}

#[test]
fn capability_is_held_in_upper_case() {
    let lower = Capability::parse("smtputf8").unwrap();
    let mixed = Capability::parse("SmtpUtf8").unwrap();
    let upper = Capability::parse("SMTPUTF8").unwrap();
    assert_eq!(lower.as_str(), "SMTPUTF8");
    assert_eq!(mixed.as_str(), "SMTPUTF8");
    assert_eq!(lower, upper);
    assert_eq!(mixed, upper);
    assert!(lower.same_as(&mixed));
    assert!(!lower.same_as(&Capability::parse("SMTPUTF9").unwrap()));
    assert_eq!(Capability::parse("x-a-1").unwrap().as_str(), "X-A-1");
}

#[test]
fn capabilities_refused() {
    for text in ["", "-X", "AUTH=PLAIN", "A B", "A.B", "A_B", "\u{e4}"] {
        assert_eq!(Some(SyntaxError::EsmtpKeyword), Capability::parse(text).err(), "{:?}", text);
    }
}

#[test]
fn params_accepted_and_refused() {
    for text in ["PLAIN", "1000", "a=b", "!", "~", "[x]"] {
        assert_eq!(EhloParam::parse(text).unwrap().as_str(), text);
    }
    for text in ["", " ", "a b", "a\tb", "\u{7f}", "\u{e9}", "a\r"] {
        assert_eq!(Some(SyntaxError::EsmtpValue), EhloParam::parse(text).err(), "{:?}", text);
    }
}

#[test]
fn clones_are_equal() {
    let domain = Domain::parse("a.test").unwrap();
    assert_eq!(domain.clone(), domain);
    let literal = AddressLiteral::parse("[1.2.3.4]").unwrap();
    assert_eq!(literal.clone(), literal);
    let capability = Capability::parse("size").unwrap();
    assert_eq!(capability.clone(), capability);
    let param = EhloParam::parse("10").unwrap();
    assert_eq!(param.clone(), param);
}

#[test]
fn capability_map_insert_replaces() {
    let mut map = CapabilityMap::new();
    assert!(map.is_empty());
    assert_eq!(map.len(), 0);
    let size = Capability::parse("SIZE").unwrap();
    let auth = Capability::parse("AUTH").unwrap();
    assert!(!map.contains(&size));
    assert!(map.get(&size).is_none());
    map.insert(size.clone(), vec![EhloParam::parse("1").unwrap()]);
    map.insert(auth.clone(), vec![]);
    assert_eq!(map.len(), 2);
    assert!(!map.is_empty());
    map.insert(Capability::parse("size").unwrap(), vec![EhloParam::parse("2").unwrap(), EhloParam::parse("3").unwrap()]);
    assert_eq!(map.len(), 2);
    assert!(map.contains(&size));
    assert!(map.contains(&auth));
    let params = map.get(&size).unwrap();
    assert_eq!(params.len(), 2);
    assert_eq!(params[0].as_str(), "2");
    assert_eq!(params[1].as_str(), "3");
    assert!(map.get(&auth).unwrap().is_empty());
    assert!(!map.contains(&Capability::parse("MIME8").unwrap()));
}

#[test]
fn ehlo_data_holds_what_it_was_given() {
    let mut map = CapabilityMap::new();
    map.insert(Capability::parse("SIZE").unwrap(), vec![EhloParam::parse("1").unwrap()]);
    let data = EhloData::new(Domain::parse("mx.test").unwrap(), map);
    assert_eq!(data.domain().as_str(), "mx.test");
    assert_eq!(data.capability_map().len(), 1);
    assert!(data.has_capability("size"));
    assert_eq!(data.get_capability_params("Size").unwrap()[0].as_str(), "1");
}
