use filter_manager::lexer::Lexer;
use filter_manager::parser::{ActionKind, Field, ParseError, Parser, ReqKind, RuleItem};

fn parse_bytes(input: &[u8]) -> Result<Vec<RuleItem>, ParseError> {
    let mut lexer = Lexer::new(input.to_vec());
    let mut parser = Parser::new(&mut lexer);
    parser.parse()
}

#[test]
fn spaces_and_nul_parse_to_nothing() {
    for input in [&b"\0"[..], b" \0", b"        \0"] {
        let items = parse_bytes(input).unwrap();
        assert!(items.is_empty());
    }
}

#[test]
fn two_filter_rules_in_order() {
    let items = parse_bytes(
        b"http://a.com http://b.com image block\nhttp://a.com http://c.com 3p allow\0",
    )
    .unwrap();
    assert_eq!(items.len(), 2);
    match &items[0] {
        RuleItem::Filter(fr) => {
            assert_eq!(fr.source.host(), Some("a.com"));
            assert_eq!(fr.destination.host(), Some("b.com"));
            assert_eq!(fr.req_type, ReqKind::Image);
            assert_eq!(fr.action_type, ActionKind::Block);
        }
        RuleItem::Setting(_) => panic!("expected a filter rule"),
    }
    match &items[1] {
        RuleItem::Filter(fr) => {
            assert_eq!(fr.source.host(), Some("a.com"));
            assert_eq!(fr.destination.host(), Some("c.com"));
            assert_eq!(fr.req_type, ReqKind::Thrdp);
            assert_eq!(fr.action_type, ActionKind::Allow);
        }
        RuleItem::Setting(_) => panic!("expected a filter rule"),
    }
}

#[test]
fn setting_fields_are_verbatim() {
    let items = parse_bytes(b"  my-name\t  /some/where  x=1;y \r\n").unwrap();
    assert_eq!(items.len(), 1);
    match &items[0] {
        RuleItem::Setting(sr) => {
            assert_eq!(sr.name, "my-name\t");
            assert_eq!(sr.location, "/some/where");
            assert_eq!(sr.val, "x=1;y");
        }
        RuleItem::Filter(_) => panic!("expected a setting rule"),
    }
}

#[test]
fn mixed_rules_keep_source_order() {
    let items = parse_bytes(b"n l v\r\n\r\nhttp://x.org * * noop\n\nk m w").unwrap();
    assert_eq!(items.len(), 3);
    assert!(matches!(&items[0], RuleItem::Setting(s) if s.name == "n"));
    match &items[1] {
        RuleItem::Filter(fr) => {
            assert_eq!(fr.source.host(), Some("x.org"));
            assert_eq!(fr.destination.to_string(), "*");
            assert_eq!(fr.req_type, ReqKind::All);
            assert_eq!(fr.action_type, ActionKind::Noop);
        }
        RuleItem::Setting(_) => panic!("expected a filter rule"),
    }
    assert!(matches!(&items[2], RuleItem::Setting(s) if s.val == "w"));
}

#[test]
fn two_fields_fail_after_valid_lines() {
    let r = parse_bytes(b"a b c\nhttp://a.com http://b.com image block\nonly two\n\0");
    assert_eq!(r.unwrap_err(), ParseError::MalformedLine { line: 3, field_count: 2 });
}

#[test]
fn five_fields_fail_after_valid_lines() {
    let r = parse_bytes(b"a b c\nhttp://a.com http://b.com image block extra\0");
    assert_eq!(r.unwrap_err(), ParseError::MalformedLine { line: 2, field_count: 5 });
}

#[test]
fn leading_blank_line_is_malformed() {
    let r = parse_bytes(b"\na b c\0");
    assert_eq!(r.unwrap_err(), ParseError::MalformedLine { line: 1, field_count: 0 });
}

#[test]
fn invalid_source_uri_names_its_text() {
    let r = parse_bytes(b"not<a>uri example.com image block\0");
    assert_eq!(
        r.unwrap_err(),
        ParseError::InvalidUri { field: Field::Source, text: "not<a>uri".to_string() }
    );
}

#[test]
fn bare_word_is_an_authority_uri() {
    let items = parse_bytes(b"not-a-uri example.com image block\0").unwrap();
    match &items[0] {
        RuleItem::Filter(fr) => assert_eq!(fr.source.host(), Some("not-a-uri")),
        RuleItem::Setting(_) => panic!("expected a filter rule"),
    }
}

#[test]
fn invalid_destination_uri_names_its_text() {
    let r = parse_bytes(b"http://a.com http://b.com/\x7f image block\0");
    assert_eq!(
        r.unwrap_err(),
        ParseError::InvalidUri { field: Field::Destination, text: "http://b.com/\u{7f}".to_string() }
    );
}

#[test]
fn unknown_request_keyword_names_its_text() {
    let r = parse_bytes(b"http://a.com http://b.com bogus-type block\0");
    assert_eq!(
        r.unwrap_err(),
        ParseError::UnknownKeyword { field: Field::Request, text: "bogus-type".to_string() }
    );
}

#[test]
fn unknown_action_keyword_names_its_text() {
    let r = parse_bytes(b"http://a.com http://b.com image deny\0");
    assert_eq!(
        r.unwrap_err(),
        ParseError::UnknownKeyword { field: Field::Action, text: "deny".to_string() }
    );
}

#[test]
fn first_faulty_line_decides_the_error() {
    let r = parse_bytes(b"http://a.com http://b.com image maybe\nx y\0");
    assert_eq!(
        r.unwrap_err(),
        ParseError::UnknownKeyword { field: Field::Action, text: "maybe".to_string() }
    );
}

#[test]
fn request_keywords_round_trip() {
    let all = [
        (ReqKind::All, "*"),
        (ReqKind::Image, "image"),
        (ReqKind::InlineScript, "inline-script"),
        (ReqKind::FstpScript, "1p-script"),
        (ReqKind::Thrdp, "3p"),
        (ReqKind::ThrdpScript, "3p-script"),
        (ReqKind::ThrdpFrame, "3p-frame"),
    ];
    for (kind, word) in all {
        assert_eq!(kind.to_string(), word);
        assert_eq!(ReqKind::from_keyword(&kind.to_string()), Some(kind));
    }
    assert_eq!(ReqKind::from_keyword(&"Image".to_string()), None);
    assert_eq!(ReqKind::from_keyword(&"".to_string()), None);
}

#[test]
fn action_keywords_round_trip() {
    let all = [(ActionKind::Block, "block"), (ActionKind::Noop, "noop"), (ActionKind::Allow, "allow")];
    for (kind, word) in all {
        assert_eq!(kind.to_string(), word);
        assert_eq!(ActionKind::from_keyword(&kind.to_string()), Some(kind));
    }
    assert_eq!(ActionKind::from_keyword(&"blocked".to_string()), None);
}

#[test]
fn every_request_keyword_in_a_line() {
    let input = b"http://a.com http://b.com * block\n\
        http://a.com http://b.com image block\n\
        http://a.com http://b.com inline-script block\n\
        http://a.com http://b.com 1p-script noop\n\
        http://a.com http://b.com 3p noop\n\
        http://a.com http://b.com 3p-script allow\n\
        http://a.com http://b.com 3p-frame allow\n\0";
    let items = parse_bytes(input).unwrap();
    let kinds: Vec<ReqKind> = items
        .iter()
        .map(|i| match i {
            RuleItem::Filter(fr) => fr.req_type,
            RuleItem::Setting(_) => panic!("expected a filter rule"),
        })
        .collect();
    assert_eq!(
        kinds,
        vec![
            ReqKind::All,
            ReqKind::Image,
            ReqKind::InlineScript,
            ReqKind::FstpScript,
            ReqKind::Thrdp,
            ReqKind::ThrdpScript,
            ReqKind::ThrdpFrame
        ]
    );
}
