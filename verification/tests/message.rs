use dust_mail::address::{Address, EmailAddress};
use dust_mail::attachment::Attachment;
use dust_mail::builder::MessageBuilder;
use dust_mail::content::Content;
use dust_mail::error::ErrorKind;
use dust_mail::flag::Flag;
use dust_mail::headers::Headers;
use dust_mail::message::{is_sendable, Message, MessageParts, Preview, SendableMessage};

fn full_builder() -> MessageBuilder {
    MessageBuilder::new()
        .recipients(Address::named("Tester", "test@example.com"))
        .senders(Address::named("User", "user@example.com"))
        .subject("Test email")
        .text("Hello world!")
        .html("<p>Hello world!</p>")
        .id("42")
        .sent(1_424_301_369)
        .flag(Flag::Read)
}

#[test]
fn builder_makes_a_whole_message() {
    let message = Message::from_builder(
        full_builder()
            .cc(Address::named("Copy", "copy@example.com"))
            .header("X-Test", "1")
            .header("X-Other", "2")
            .header("X-Test", "3"),
    )
    .unwrap();
    assert_eq!(message.id(), "42");
    assert_eq!(message.subject(), Some("Test email"));
    assert_eq!(message.sent(), Some(&1_424_301_369));
    assert_eq!(message.from().first().unwrap().email(), "user@example.com");
    assert_eq!(message.to().first().unwrap().name(), Some(&"Tester".to_string()));
    assert_eq!(message.cc().unwrap().first().unwrap().email(), "copy@example.com");
    assert!(message.bcc().is_none());
    assert_eq!(message.content().text(), Some("Hello world!"));
    assert_eq!(message.content().html(), Some("<p>Hello world!</p>"));
    assert!(matches!(message.flags().as_slice(), [Flag::Read]));
    assert!(message.attachments().is_empty());
    assert_eq!(message.headers().len(), 2);
    assert_eq!(message.headers().get("X-Test"), Some(&"3".to_string()));
    assert_eq!(message.headers().get("X-Other"), Some(&"2".to_string()));
    assert_eq!(message.headers().get("x-test"), None);
    assert_eq!(message.headers().field(0), Some(("X-Test", "3")));
    assert_eq!(message.headers().field(2), None);
}

#[test]
fn message_without_headers_has_no_fields() {
    let message = Message::from_builder(full_builder()).unwrap();
    assert_eq!(message.headers().len(), 0);
}

#[test]
fn message_needs_id_sender_and_receiver() {
    let no_id = MessageBuilder::new()
        .senders(Address::named("User", "user@example.com"))
        .recipients(Address::named("Tester", "test@example.com"));
    let error = Message::from_builder(no_id).unwrap_err();
    assert_eq!(*error.kind(), ErrorKind::InvalidMessage);
    assert_eq!(error.message(), "Missing message identifier");

    let no_sender = MessageBuilder::new().id("1").recipients(Address::named("T", "t@example.com"));
    let error = Message::from_builder(no_sender).unwrap_err();
    assert_eq!(*error.kind(), ErrorKind::InvalidMessage);
    assert_eq!(error.message(), "Missing message sender");

    let no_receiver = MessageBuilder::new().id("1").senders(Address::named("U", "u@example.com"));
    let error = Message::from_builder(no_receiver).unwrap_err();
    assert_eq!(*error.kind(), ErrorKind::InvalidMessage);
    assert_eq!(error.message(), "Missing message receiver");
}

#[test]
fn preview_needs_id_and_sender_only() {
    let preview = Preview::from_builder(
        MessageBuilder::new().id("7").senders(Address::named("User", "user@example.com")),
    )
    .unwrap();
    assert_eq!(preview.id(), "7");
    assert_eq!(preview.from().first().unwrap().email(), "user@example.com");
    assert_eq!(preview.subject(), None);
    assert_eq!(preview.sent(), None);
    assert!(preview.flags().is_empty());

    let error = Preview::from_builder(MessageBuilder::new().id("7")).unwrap_err();
    assert_eq!(*error.kind(), ErrorKind::InvalidMessage);
    assert_eq!(error.message(), "Message is missing sender");
    let error = Preview::from_builder(
        MessageBuilder::new().senders(Address::named("User", "user@example.com")),
    )
    .unwrap_err();
    assert_eq!(*error.kind(), ErrorKind::InvalidMessage);
    assert_eq!(error.message(), "Message is missing identifier");
}

#[test]
fn preview_of_a_message_with_attachments_is_flagged() {
    let preview = Preview::from_builder(
        full_builder()
            .flags(vec![Flag::Flagged, Flag::Custom(Some("x".to_string()))])
            .attachments(vec![Attachment::new("2".to_string(), None, 10)]),
    )
    .unwrap();
    assert!(matches!(
        preview.flags().as_slice(),
        [Flag::Read, Flag::Flagged, Flag::Custom(Some(_)), Flag::HasAttachment]
    ));
    assert_eq!(preview.subject(), Some("Test email"));
    assert_eq!(preview.sent(), Some(&1_424_301_369));

    let plain = Preview::from_builder(full_builder()).unwrap();
    assert!(matches!(plain.flags().as_slice(), [Flag::Read]));
}

#[test]
fn sendable_message_needs_sender_and_receiver() {
    let sendable = SendableMessage::from_builder(
        MessageBuilder::new()
            .recipients(Address::named("Tester", "test@example.com"))
            .senders(Address::named("User", "user@example.com"))
            .text("Hello world!"),
    )
    .unwrap()
    .into_parts();
    assert_eq!(sendable.subject, "");
    assert_eq!(sendable.content.text(), Some("Hello world!"));
    assert_eq!(sendable.content.html(), None);
    assert_eq!(sendable.from.first().unwrap().email(), "user@example.com");
    assert_eq!(sendable.to.first().unwrap().email(), "test@example.com");

    let with_subject = SendableMessage::from_builder(full_builder()).unwrap();
    let (from, to) = with_subject.envelope().unwrap();
    assert_eq!(from.as_deref(), Some("user@example.com"));
    assert_eq!(to, vec!["test@example.com".to_string()]);
    assert_eq!(with_subject.into_parts().subject, "Test email");

    let error = SendableMessage::from_builder(
        MessageBuilder::new().recipients(Address::named("Tester", "test@example.com")),
    )
    .unwrap_err();
    assert_eq!(*error.kind(), ErrorKind::InvalidMessage);
    assert_eq!(error.message(), "Missing message sender");
    let error = SendableMessage::from_builder(
        MessageBuilder::new().senders(Address::named("User", "user@example.com")),
    )
    .unwrap_err();
    assert_eq!(error.message(), "Missing message receiver");
}

#[test]
fn envelope_holds_the_addresses_that_can_go_on_it() {
    assert!(is_sendable("user@example.com"));
    assert!(is_sendable(""));
    assert!(!is_sendable("user @example.com"));
    assert!(!is_sendable("<user@example.com>"));
    assert!(!is_sendable("us\ter@example.com"));
    assert!(!is_sendable("üser@example.com"));
    assert!(!is_sendable("user@example.com\x7f"));

    let single = |email: &str| Address::single(None, email.to_string());
    let sendable = |from: Address, to: Address| {
        SendableMessage::from_builder(MessageBuilder::new().senders(from).recipients(to)).unwrap()
    };
    let message = sendable(
        Address::group(None, vec![single("a@example.com"), single("not first")]),
        Address::group(None, vec![single("b c@example.com"), single("d@example.com"), single("e@example.com")]),
    );
    let (from, to) = message.envelope().unwrap();
    assert_eq!(from.as_deref(), Some("a@example.com"));
    assert_eq!(to, vec!["d@example.com".to_string(), "e@example.com".to_string()]);

    // A sender without a mailbox leaves the envelope without a sender.
    let message = sendable(Address::group(None, Vec::new()), single("d@example.com"));
    assert_eq!(message.envelope().unwrap(), (None, vec!["d@example.com".to_string()]));

    let message = sendable(single("a b@example.com"), single("d@example.com"));
    let error = message.envelope().unwrap_err();
    assert_eq!(*error.kind(), ErrorKind::InvalidMessage);
    let message = sendable(single("a@example.com"), single("d e@example.com"));
    let error = message.envelope().unwrap_err();
    assert_eq!(*error.kind(), ErrorKind::InvalidMessage);
    assert_eq!(
        error.message(),
        "Failed to create message envelope: missing destination address"
    );
}

#[test]
fn address_lists_its_mailboxes_from_left_to_right() {
    let single = |email: &str| Address::single(None, email.to_string());
    let address = Address::group(
        Some("team".to_string()),
        vec![
            Address::group(None, Vec::new()),
            Address::group(None, vec![single("a@example.com"), single("b@example.com")]),
            single("c@example.com"),
        ],
    );
    let emails: Vec<&str> = address.as_list().iter().map(|mailbox| mailbox.email()).collect();
    assert_eq!(emails, vec!["a@example.com", "b@example.com", "c@example.com"]);
    assert_eq!(address.first().unwrap().email(), "a@example.com");
    assert!(Address::group(None, Vec::new()).first().is_none());
    assert!(Address::group(None, Vec::new()).as_list().is_empty());
    assert_eq!(single("x@example.com").as_list().len(), 1);
}

#[test]
fn list_of_one_address_is_that_address() {
    let single = |email: &str| Address::single(None, email.to_string());
    assert!(matches!(Address::from_list(vec![single("a@example.com")]), Address::Single(_)));
    match Address::from_list(vec![single("a@example.com"), single("b@example.com")]) {
        Address::Group { name, list } => {
            assert_eq!(name, None);
            assert_eq!(list.len(), 2);
        }
        other => panic!("expected a group, got {:?}", other),
    }
    assert!(matches!(Address::from_list(Vec::new()), Address::Group { .. }));
    let named = EmailAddress::new(Some("N".to_string()), "n@example.com".to_string());
    assert_eq!(named.full(), "N <n@example.com>");
    assert_eq!(EmailAddress::new(None, "n@example.com".to_string()).full(), "n@example.com");
    let (name, email) = named.into_parts();
    assert_eq!((name.as_deref(), email.as_str()), (Some("N"), "n@example.com"));
}

#[test]
fn content_and_headers_hold_what_they_were_given() {
    let mut content = Content::from_text("plain");
    assert_eq!(content.text(), Some("plain"));
    assert_eq!(content.html(), None);
    content.set_html("<b>bold</b>");
    content.set_text("other");
    assert_eq!(content.text(), Some("other"));
    assert_eq!(content.html(), Some("<b>bold</b>"));
    let empty = Content::default();
    assert_eq!((empty.text(), empty.html()), (None, None));
    let both = Content::new(Some("t".to_string()), Some("h".to_string()));
    assert_eq!(both.into_parts(), (Some("t".to_string()), Some("h".to_string())));

    let mut headers = Headers::new();
    headers.insert("a".to_string(), "1".to_string());
    headers.insert("b".to_string(), "2".to_string());
    headers.insert("a".to_string(), "3".to_string());
    assert_eq!(headers.len(), 2);
    assert_eq!(headers.get("a"), Some(&"3".to_string()));
    assert_eq!(headers.field(0), Some(("a", "3")));
    assert_eq!(headers.field(1), Some(("b", "2")));

    let attachment = Attachment::new("1.2".to_string(), Some("x.pdf".to_string()), 5);
    assert_eq!(attachment.id(), "1.2");
    assert_eq!(attachment.file_name(), Some(&"x.pdf".to_string()));
    assert_eq!(attachment.size(), 5);
}

#[test]
fn flags_of_retrieved_and_stored_messages() {
    assert!(matches!(Flag::of_retrieved(false).as_slice(), [Flag::Read]));
    assert!(matches!(Flag::of_retrieved(true).as_slice(), [Flag::Read, Flag::Deleted]));
    assert!(Flag::of_entry(false, false, false, false, false).is_empty());
    assert!(matches!(
        Flag::of_entry(true, true, true, true, true).as_slice(),
        [Flag::Read, Flag::Flagged, Flag::Draft, Flag::Deleted, Flag::Answered]
    ));
    assert!(matches!(
        Flag::of_entry(false, true, false, false, true).as_slice(),
        [Flag::Flagged, Flag::Answered]
    ));
}

#[test]
fn message_test_to_mime() {
    let builder = MessageBuilder::new()
        .recipients(Address::named("Tester", "test@example.com"))
        .senders(Address::named("User", "user@example.com"))
        .subject("Test email")
        .text("Hello world!")
        .html(
            "<!DOCTYPE html><html><head><title>Example Email</title></head><body><p>Hello Jane,</p><p>Here's the HTML version of the email.</p><p>Best regards,<br>John</p></body></html>",
        );

    let sendable = SendableMessage::from_builder(builder).unwrap();
    let (from, to) = sendable.envelope().unwrap();
    assert_eq!(from.as_deref(), Some("user@example.com"));
    assert_eq!(to, vec!["test@example.com".to_string()]);

    let parts = sendable.into_parts();
    assert_eq!(parts.from.first().unwrap().full(), "User <user@example.com>");
    assert_eq!(parts.to.first().unwrap().full(), "Tester <test@example.com>");
    assert_eq!(parts.subject, "Test email");
    assert_eq!(parts.content.text(), Some("Hello world!"));
    assert!(parts.content.html().unwrap().starts_with("<!DOCTYPE html>"));

    println!("{:?}", parts.content)
}

#[test]
fn preview_and_message_hold_what_they_were_made_of() {
    let preview = Preview::new(
        Address::named("User", "user@example.com"),
        vec![Flag::Draft],
        "5",
        Some(12),
        Some("subject".to_string()),
    );
    assert_eq!(preview.id(), "5");
    assert_eq!(preview.sent(), Some(&12));
    assert_eq!(preview.subject(), Some("subject"));
    assert_eq!(preview.from().first().unwrap().email(), "user@example.com");
    assert!(matches!(preview.flags().as_slice(), [Flag::Draft]));

    let mut headers = Headers::new();
    headers.insert("X".to_string(), "y".to_string());
    let message = Message::new(MessageParts {
        from: Address::named("User", "user@example.com"),
        to: Address::named("Tester", "test@example.com"),
        cc: None,
        bcc: Some(Address::named("Hidden", "hidden@example.com")),
        headers,
        flags: vec![Flag::Answered],
        id: "6".to_string(),
        sent: None,
        subject: None,
        attachments: vec![Attachment::new("1".to_string(), None, 3)],
        content: Content::from_text("text"),
    });
    assert_eq!(message.id(), "6");
    assert_eq!(message.to().first().unwrap().email(), "test@example.com");
    assert!(message.cc().is_none());
    assert_eq!(message.bcc().unwrap().first().unwrap().email(), "hidden@example.com");
    assert_eq!(message.headers().get("X"), Some(&"y".to_string()));
    assert_eq!(message.attachments()[0].size(), 3);
    assert_eq!(message.content().text(), Some("text"));
    assert_eq!(message.sent(), None);
    assert_eq!(message.subject(), None);
}
