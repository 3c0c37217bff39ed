use dust_mail::body_structure::{BodyPart, BodyStructure, BodyStructureParser, ContentDisposition};

fn part(ty: &str, subtype: &str, disposition: Option<ContentDisposition>, octets: u32) -> BodyPart {
    BodyPart::new(ty.to_string(), subtype.to_string(), disposition, octets)
}

fn disposition(ty: &str, params: &[(&str, &str)]) -> ContentDisposition {
    ContentDisposition::new(
        ty.to_string(),
        Some(params.iter().map(|(k, v)| (k.to_string(), v.to_string())).collect()),
    )
}

fn two_levels() -> BodyStructure {
    BodyStructure::Multipart(vec![
        BodyStructure::Multipart(vec![
            BodyStructure::Text(part("TEXT", "PLAIN", None, 12)),
            BodyStructure::Text(part("text", "html", None, 34)),
        ]),
        BodyStructure::Multipart(vec![
            BodyStructure::Basic(part("image", "png", Some(disposition("inline", &[])), 56)),
            BodyStructure::Basic(part(
                "application",
                "pdf",
                Some(disposition("attachment", &[("filename", "x.pdf")])),
                789,
            )),
        ]),
    ])
}

#[test]
fn attachment_in_the_second_branch_has_part_number_2_2() {
    let structure = two_levels();
    let attachments = BodyStructureParser::new(&structure).extract_attachments();
    assert_eq!(attachments.len(), 1);
    assert_eq!(attachments[0].id(), "2.2");
    assert_eq!(attachments[0].file_name(), Some(&"x.pdf".to_string()));
    assert_eq!(attachments[0].size(), 789);
}

#[test]
fn part_numbers_follow_the_nesting() {
    let structure = two_levels();
    let parser = BodyStructureParser::new(&structure);
    assert_eq!(parser.find_part_number_for("text/plain").unwrap().to_text(), "1.1");
    assert_eq!(parser.find_part_number_for("text/html").unwrap().to_text(), "1.2");
    assert_eq!(parser.find_part_number_for("image/png").unwrap().to_text(), "2.1");
    assert_eq!(parser.find_part_number_for("application/pdf").unwrap().to_text(), "2.2");
    assert!(parser.find_part_number_for("audio/mpeg").is_none());
    // A multipart is never a match itself.
    assert!(parser.find_part_number_for("multipart/mixed").is_none());
}

#[test]
fn first_match_in_depth_first_order_wins() {
    let structure = BodyStructure::Multipart(vec![
        BodyStructure::Multipart(vec![BodyStructure::Text(part("text", "plain", None, 1))]),
        BodyStructure::Text(part("text", "plain", None, 2)),
    ]);
    let parser = BodyStructureParser::new(&structure);
    assert_eq!(parser.find_part_number_for("text/plain").unwrap().to_text(), "1.1");
}

#[test]
fn media_types_are_compared_as_media_types() {
    let structure = BodyStructure::Text(part("Text", "HTML", None, 1));
    let parser = BodyStructureParser::new(&structure);
    assert_eq!(parser.find_part_number_for("text/html").unwrap().to_text(), "");
    assert_eq!(parser.find_part_number_for("TEXT/html").unwrap().to_text(), "");
    assert!(parser.find_part_number_for("text/plain").is_none());
    assert!(parser.find_part_number_for("text").is_none());
    assert!(parser.find_part_number_for("not a media type").is_none());
    // A media type with parameters names no part.
    assert!(parser.find_part_number_for("text/html; charset=utf-8").is_none());
    let broken = BodyStructure::Text(part("te xt", "html", None, 1));
    assert!(BodyStructureParser::new(&broken).find_part_number_for("text/html").is_none());
}

#[test]
fn single_part_message_has_the_empty_part_number() {
    let structure = BodyStructure::Message(part(
        "message",
        "rfc822",
        Some(disposition("ATTACHMENT", &[("FileName", "mail.eml")])),
        5,
    ));
    let attachments = BodyStructureParser::new(&structure).extract_attachments();
    assert_eq!(attachments.len(), 1);
    assert_eq!(attachments[0].id(), "");
    assert_eq!(attachments[0].file_name(), Some(&"mail.eml".to_string()));
    assert_eq!(attachments[0].size(), 5);
}

#[test]
fn part_without_disposition_is_never_an_attachment() {
    let structure = BodyStructure::Multipart(vec![
        BodyStructure::Basic(part("application", "zip", None, 1_000_000)),
        BodyStructure::Basic(part("application", "zip", Some(disposition("inline", &[])), 1)),
    ]);
    assert!(BodyStructureParser::new(&structure).extract_attachments().is_empty());
}

#[test]
fn attachments_come_in_depth_first_order() {
    let attached = |name: &str, size: u32| {
        BodyStructure::Basic(part(
            "application",
            "octet-stream",
            Some(disposition("attachment", &[("filename", name)])),
            size,
        ))
    };
    let structure = BodyStructure::Multipart(vec![
        attached("a", 1),
        BodyStructure::Multipart(vec![
            attached("b", 2),
            BodyStructure::Multipart(vec![attached("c", 3)]),
        ]),
        attached("d", 4),
    ]);
    let attachments = BodyStructureParser::new(&structure).extract_attachments();
    let ids: Vec<&str> = attachments.iter().map(|a| a.id()).collect();
    assert_eq!(ids, vec!["1", "2.1", "2.2.1", "3"]);
    let sizes: Vec<usize> = attachments.iter().map(|a| a.size()).collect();
    assert_eq!(sizes, vec![1, 2, 3, 4]);
}

#[test]
fn file_name_is_the_last_parameter_of_that_name() {
    let structure = BodyStructure::Basic(part(
        "application",
        "pdf",
        Some(disposition(
            "attachment",
            &[("filename", "first.pdf"), ("size", "3"), ("FILENAME", "last.pdf"), ("x", "y")],
        )),
        3,
    ));
    let attachments = BodyStructureParser::new(&structure).extract_attachments();
    assert_eq!(attachments[0].file_name(), Some(&"last.pdf".to_string()));

    let nameless = BodyStructure::Basic(part(
        "application",
        "pdf",
        Some(ContentDisposition::new("attachment".to_string(), None)),
        3,
    ));
    let attachments = BodyStructureParser::new(&nameless).extract_attachments();
    assert_eq!(attachments.len(), 1);
    assert_eq!(attachments[0].file_name(), None);
}
