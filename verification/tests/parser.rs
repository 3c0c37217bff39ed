use dust_mail::address::Address;
use dust_mail::body_structure::{BodyPart, BodyStructure, ContentDisposition};
use dust_mail::error::ErrorKind;
use dust_mail::fetch::{message_from_fetch, preview_from_fetch, single_fetch, FetchedItem};
use dust_mail::flag::Flag;
use dust_mail::message::{Message, Preview};
use dust_mail::parser::{
    from_parsed_mail, from_rfc822, parse_headers, sanitize_html, sanitize_text, MailPart,
    ParsedMail,
};

const MAIL: &str = "From: User <user@example.com>\r\n\
To: Tester <test@example.com>, other@example.com\r\n\
Subject: Test email\r\n\
Date: Wed, 18 Feb 2015 23:16:09 GMT\r\n\
Content-Type: TEXT/Plain; charset=utf-8\r\n\
\r\n\
Hello <b>world</b>!\r\n";

fn pairs(fields: &[(&str, &str)]) -> Vec<(String, String)> {
    fields.iter().map(|(k, v)| (k.to_string(), v.to_string())).collect()
}

#[test]
fn message_is_read_from_its_bytes() {
    let builder = from_rfc822(&MAIL.as_bytes().to_vec()).unwrap().id("1");
    let message = Message::from_builder(builder).unwrap();
    assert_eq!(message.subject(), Some("Test email"));
    assert_eq!(message.sent(), Some(&1_424_301_369));
    let from = message.from().first().unwrap();
    assert_eq!(from.email(), "user@example.com");
    assert_eq!(from.name(), Some(&"User".to_string()));
    let to: Vec<&str> = message.to().as_list().iter().map(|m| m.email()).collect();
    assert_eq!(to, vec!["test@example.com", "other@example.com"]);
    assert!(message.cc().is_none());
    assert_eq!(message.headers().get("Subject"), Some(&"Test email".to_string()));
    assert_eq!(message.headers().len(), 5);
    // The text is cleaned, so that it can stand in html.
    let text = message.content().text().unwrap();
    assert!(text.starts_with("Hello&#32;&lt;b&gt;world&lt;&#47;b&gt;!"), "{}", text);
    assert_eq!(message.content().html(), None);
}

#[test]
fn parsed_message_without_date_and_addresses_is_read_too() {
    let parsed = ParsedMail {
        headers: pairs(&[("Subject", "first"), ("X", "y"), ("Subject", "second")]),
        parts: vec![
            MailPart { headers: pairs(&[("X", "y")]), body: None },
            MailPart {
                headers: pairs(&[(" Content-Type ", " Text/HTML; charset=x")]),
                body: Some("<p>hi</p><script>alert(1)</script>".to_string()),
            },
            MailPart {
                headers: pairs(&[("content-type", "text/plain")]),
                body: Some("a < b".to_string()),
            },
            MailPart {
                headers: pairs(&[("content-type", "image/png")]),
                body: Some("png".to_string()),
            },
        ],
    };
    let parts = from_parsed_mail(parsed).unwrap().id("1").into_parts();
    assert_eq!(parts.subject.as_deref(), Some("second"));
    assert_eq!(parts.sent, None);
    assert!(parts.from.is_none() && parts.to.is_none() && parts.cc.is_none());
    assert_eq!(parts.content.html(), Some("<p>hi</p>"));
    assert_eq!(parts.content.text(), Some("a&#32;&lt;&#32;b"));
    assert_eq!(parts.headers.unwrap().len(), 2);
}

#[test]
fn later_part_of_one_kind_replaces_the_earlier() {
    let parsed = ParsedMail {
        headers: Vec::new(),
        parts: vec![
            MailPart { headers: pairs(&[("Content-Type", "text/plain")]), body: Some("one".to_string()) },
            MailPart { headers: pairs(&[("Content-Type", "text/plain")]), body: Some("two".to_string()) },
        ],
    };
    let parts = from_parsed_mail(parsed).unwrap().into_parts();
    assert_eq!(parts.content.text(), Some("two"));
}

#[test]
fn date_that_does_not_parse_is_an_error() {
    let parsed = ParsedMail { headers: pairs(&[("Date", "yesterday")]), parts: Vec::new() };
    let error = from_parsed_mail(parsed).unwrap_err();
    assert_eq!(*error.kind(), ErrorKind::ParseTime);
}

#[test]
fn date_is_trimmed_before_it_is_read() {
    let parsed = ParsedMail {
        headers: pairs(&[("Date", "  Wed, 18 Feb 2015 23:16:09 +0100 ")]),
        parts: Vec::new(),
    };
    let parts = from_parsed_mail(parsed).unwrap().into_parts();
    assert_eq!(parts.sent, Some(1_424_301_369 - 3600));
}

#[test]
fn address_that_does_not_parse_is_an_error() {
    let parsed = ParsedMail { headers: pairs(&[("From", "Tester <test@example.com")]), parts: Vec::new() };
    let error = from_parsed_mail(parsed).unwrap_err();
    assert_eq!(*error.kind(), ErrorKind::ParseEmailAddress);
}

#[test]
fn part_with_content_type_and_without_body_is_an_error() {
    let parsed = ParsedMail {
        headers: Vec::new(),
        parts: vec![MailPart { headers: pairs(&[("Content-Type", "text/plain")]), body: None }],
    };
    let error = from_parsed_mail(parsed).unwrap_err();
    assert_eq!(*error.kind(), ErrorKind::ParseMessage);
}

#[test]
fn bytes_that_are_no_message_are_an_error() {
    // A header block cannot begin with a line that continues another.
    let error = from_rfc822(&b" Subject: x\r\n\r\nbody".to_vec()).unwrap_err();
    assert_eq!(*error.kind(), ErrorKind::ParseMessage);
    let error = parse_headers(&b" Subject: x\r\n\r\nbody".to_vec()).unwrap_err();
    assert_eq!(*error.kind(), ErrorKind::ParseMessage);
}

#[test]
fn header_block_is_read_by_name() {
    let headers = parse_headers(&b"A: 1\r\nB: 2\r\nA: 3\r\n\r\nbody".to_vec()).unwrap();
    assert_eq!(headers.len(), 2);
    assert_eq!(headers.get("A"), Some(&"3".to_string()));
    assert_eq!(headers.get("B"), Some(&"2".to_string()));
    assert_eq!(headers.field(0), Some(("A", "3")));
}

#[test]
fn address_header_is_read_into_addresses() {
    let list = Address::from_header("Tester <test@example.com>, plain@example.com").unwrap();
    assert_eq!(list.len(), 2);
    let first = list[0].first().unwrap();
    assert_eq!(first.name(), Some(&"Tester".to_string()));
    assert_eq!(first.email(), "test@example.com");
    let second = list[1].first().unwrap();
    assert_eq!(second.name(), None);
    assert_eq!(second.email(), "plain@example.com");
    assert!(Address::from_header("").unwrap().is_empty());
    // Values that the parser cannot take do not parse.
    for header in [
        "=?utf-8?x?abc?= <a@b.c>",
        "=?utf-8?q?abc=?= <a@b.c>",
        "=?utf-8?q?abc=4?= <a@b.c>",
        "=?utf-8?qq?abc?= <a@b.c>",
        "\"=\\?utf-8?x?abc?=\" <a@b.c>",
        "=?utf-8?x?abc?= <a@b.c> \t ",
    ] {
        assert!(!dust_mail::address::is_parseable(header), "{:?}", header);
        let error = Address::from_header(header).unwrap_err();
        assert_eq!(*error.kind(), ErrorKind::ParseEmailAddress, "{:?}", header);
    }
    // Blanks and tabs at the end are passed over.
    for header in [" ", "\t \t", "a@b.c, ", "a@b.c\t", "a@b.c ", "Joe <a@b.c>  \t"] {
        assert!(!dust_mail::address::is_parseable(header), "{:?}", header);
        let stripped = dust_mail::address::strip_end_blanks(header);
        assert_eq!(stripped, header.trim_end_matches(|c| c == ' ' || c == '\t'));
        assert!(dust_mail::address::is_parseable(&stripped));
        let list = Address::from_header(header).unwrap();
        assert_eq!(list.len(), if stripped.is_empty() { 0 } else { 1 }, "{:?}", header);
    }
    assert_eq!(dust_mail::address::strip_end_blanks("a b\n"), "a b\n");
    let error = Address::from_header("Joe ").unwrap_err();
    assert_eq!(*error.kind(), ErrorKind::ParseEmailAddress);
    let list = Address::from_header("Joe <a@b.c> ").unwrap();
    assert_eq!(list[0].first().unwrap().name(), Some(&"Joe".to_string()));
    assert_eq!(list[0].first().unwrap().email(), "a@b.c");
    // Encoded words that can be decoded are decoded.
    let list = Address::from_header("=?utf-8?q?J=C3=B6rg?= <j@example.org>").unwrap();
    assert_eq!(list[0].first().unwrap().name(), Some(&"Jörg".to_string()));
    let list = Address::from_header("=?ISO-8859-1?B?VGVzdCB0ZXh0?= <t@example.org>").unwrap();
    assert_eq!(list[0].first().unwrap().name(), Some(&"Test text".to_string()));
    assert!(dust_mail::address::is_parseable("what? <w@example.org>"));
    assert!(dust_mail::address::is_parseable("\"a\\\"b\" <w@example.org>"));
    assert!(Address::from_header("a@b.c").is_ok());
    let error = Address::from_header("Tester <test@example.com").unwrap_err();
    assert_eq!(*error.kind(), ErrorKind::ParseEmailAddress);
}

#[test]
fn text_and_html_are_cleaned() {
    assert_eq!(sanitize_text("<b>a & b</b>"), "&lt;b&gt;a&#32;&amp;&#32;b&lt;&#47;b&gt;");
    assert_eq!(sanitize_text("plain"), "plain");
    assert_eq!(sanitize_text(""), "");
    assert_eq!(
        sanitize_text("<>\"'`/&= \t\n\x0c\r\0é"),
        "&lt;&gt;&quot;&apos;&grave;&#47;&amp;&#61;&#32;&#9;&#10;&#12;&#13;&#65533;é"
    );
    assert_eq!(sanitize_html("<p>hi</p><script>alert(1)</script>"), "<p>hi</p>");
    // Tags and attributes that mail needs are let through.
    assert_eq!(
        sanitize_html("<center><table width=\"5\"><tbody><tr><td>x</td></tr></tbody></table></center>"),
        "<center><table width=\"5\"><tbody><tr><td>x</td></tr></tbody></table></center>"
    );
    assert_eq!(sanitize_html("<p onclick=\"x()\" class=\"c\">x</p>"), "<p class=\"c\">x</p>");
}

fn fetched(uid: Option<u32>, header: Option<&str>, with_structure: bool) -> FetchedItem {
    let attachment = BodyStructure::Basic(BodyPart::new(
        "application".to_string(),
        "pdf".to_string(),
        Some(ContentDisposition::new(
            "attachment".to_string(),
            Some(vec![("filename".to_string(), "x.pdf".to_string())]),
        )),
        10,
    ));
    FetchedItem {
        uid,
        flags: vec![Flag::Read],
        header: header.map(|h| h.as_bytes().to_vec()),
        bodystructure: if with_structure {
            Some(BodyStructure::Multipart(vec![attachment]))
        } else {
            None
        },
    }
}

#[test]
fn preview_is_made_of_what_a_fetch_brought() {
    let preview: Preview = preview_from_fetch(fetched(Some(17), Some(MAIL), true)).unwrap();
    assert_eq!(preview.id(), "17");
    assert_eq!(preview.subject(), Some("Test email"));
    assert_eq!(preview.from().first().unwrap().email(), "user@example.com");
    assert!(matches!(preview.flags().as_slice(), [Flag::Read, Flag::HasAttachment]));
}

#[test]
fn piece_that_did_not_come_is_unexpected_behaviour() {
    for item in [
        fetched(None, Some(MAIL), true),
        fetched(Some(1), None, true),
        fetched(Some(1), Some(MAIL), false),
    ] {
        let error = preview_from_fetch(item).unwrap_err();
        assert_eq!(*error.kind(), ErrorKind::UnexpectedBehavior);
    }
    let error = message_from_fetch(fetched(None, Some(MAIL), true), None, None).unwrap_err();
    assert_eq!(*error.kind(), ErrorKind::UnexpectedBehavior);
}

#[test]
fn message_is_made_of_two_fetches() {
    let message = message_from_fetch(
        fetched(Some(17), Some(MAIL), true),
        Some("fetched text".to_string()),
        Some("<p>fetched html</p>".to_string()),
    )
    .unwrap();
    assert_eq!(message.id(), "17");
    assert_eq!(message.content().text(), Some("fetched text"));
    assert_eq!(message.content().html(), Some("<p>fetched html</p>"));
    assert_eq!(message.attachments().len(), 1);
    assert_eq!(message.attachments()[0].id(), "1");
    assert_eq!(message.attachments()[0].file_name(), Some(&"x.pdf".to_string()));
    assert!(matches!(message.flags().as_slice(), [Flag::Read]));

    // Without a text and an html part the message is still made.
    let bare = "From: a@example.com\r\nTo: b@example.com\r\n\r\n";
    let message = message_from_fetch(fetched(Some(3), Some(bare), true), None, None).unwrap();
    assert_eq!(message.content().text(), None);
    assert_eq!(message.content().html(), None);

    let no_receiver = "From: a@example.com\r\n\r\n";
    let error = message_from_fetch(fetched(Some(3), Some(no_receiver), true), None, None).unwrap_err();
    assert_eq!(*error.kind(), ErrorKind::InvalidMessage);
}

#[test]
fn fetch_by_id_that_brings_nothing_finds_no_message() {
    let error = single_fetch(Vec::new(), "9").unwrap_err();
    assert_eq!(*error.kind(), ErrorKind::MessageNotFound);
    assert_eq!(error.message(), "Could not find a message with id 9");
    let item = single_fetch(
        vec![fetched(Some(1), None, false), fetched(Some(2), None, false)],
        "1",
    )
    .unwrap();
    assert_eq!(item.uid, Some(1));
}

#[test]
fn message_and_preview_are_read_from_bytes_with_id_and_flags() {
    let bytes = MAIL.as_bytes().to_vec();
    let message = Message::from_rfc822(&bytes, "uid-7", vec![Flag::Flagged]).unwrap();
    assert_eq!(message.id(), "uid-7");
    assert_eq!(message.subject(), Some("Test email"));
    assert!(matches!(message.flags().as_slice(), [Flag::Flagged]));
    let preview = Preview::from_rfc822(&bytes, "uid-7", Vec::new()).unwrap();
    assert_eq!(preview.id(), "uid-7");
    assert_eq!(preview.sent(), Some(&1_424_301_369));
    assert!(preview.flags().is_empty());

    let no_sender = b"To: b@example.com\r\n\r\n".to_vec();
    let error = Preview::from_rfc822(&no_sender, "1", Vec::new()).unwrap_err();
    assert_eq!(*error.kind(), ErrorKind::InvalidMessage);
    let broken = b" x: y\r\n\r\n".to_vec();
    let error = Message::from_rfc822(&broken, "1", Vec::new()).unwrap_err();
    assert_eq!(*error.kind(), ErrorKind::ParseMessage);
}
