use dust_mail::body_structure::{BodyPart, BodyStructure};
use dust_mail::error::ErrorKind;
use dust_mail::mailbox::{build_mailbox_tree, Mailbox, MailboxStats, NameEntry};
use dust_mail::session::{
    attachment_bytes, attachment_request, find_mailbox, get_messages_request, message_query,
    message_window, renamed_id, with_stats, BodyPlan, SelectStep, SessionState, CHECK_TIME,
    KEEP_ALIVE_INTERVAL,
};
use dust_mail::tree::Node;

/// Follows the steps until the mailbox is selected or the selection fails,
/// and gives the commands that would go over the wire.
fn select(state: &mut SessionState, mailbox: &Mailbox, stats: MailboxStats) -> (Vec<String>, bool) {
    let mut wire = Vec::new();
    loop {
        match state.select_step(mailbox) {
            SelectStep::Done(_) => return (wire, true),
            SelectStep::NotSelectable => return (wire, false),
            SelectStep::Close => {
                wire.push("CLOSE".to_string());
                state.closed();
            }
            SelectStep::Select(id) => {
                wire.push(format!("SELECT {}", id));
                state.selected(id, stats);
            }
        }
    }
}

#[test]
fn selecting_a_then_b_closes_once_and_selects_once() {
    let a = Mailbox::new(None, true, "A", "A");
    let b = Mailbox::new(None, true, "B", "B");
    let mut state = SessionState::new();
    assert_eq!(
        select(&mut state, &a, MailboxStats::new(1, 2)),
        (vec!["SELECT A".to_string()], true)
    );
    assert_eq!(
        select(&mut state, &b, MailboxStats::new(3, 4)),
        (vec!["CLOSE".to_string(), "SELECT B".to_string()], true)
    );
    assert_eq!(state.selected_id(), Some("B"));
}

#[test]
fn selecting_a_twice_sends_nothing_the_second_time() {
    let a = Mailbox::new(None, true, "A", "A");
    let mut state = SessionState::new();
    select(&mut state, &a, MailboxStats::new(1, 2));
    assert_eq!(select(&mut state, &a, MailboxStats::new(9, 9)), (Vec::new(), true));
    match state.select_step(&a) {
        SelectStep::Done(stats) => assert_eq!((stats.unseen(), stats.total()), (1, 2)),
        other => panic!("expected the mailbox to be selected, got {:?}", other),
    }
}

#[test]
fn selection_compares_ids_after_trimming() {
    let a = Mailbox::new(None, true, "A", "A");
    let padded = Mailbox::new(None, true, "  A\t", "A");
    let mut state = SessionState::new();
    select(&mut state, &a, MailboxStats::new(1, 2));
    assert!(matches!(state.select_step(&padded), SelectStep::Done(_)));
    let lower = Mailbox::new(None, true, "a", "a");
    assert!(matches!(state.select_step(&lower), SelectStep::Close));
}

#[test]
fn mailbox_that_cannot_be_selected_fails_after_the_close() {
    let a = Mailbox::new(None, true, "A", "A");
    let closed = Mailbox::new(None, false, "Archive", "Archive");
    let mut state = SessionState::new();
    assert_eq!(select(&mut state, &closed, MailboxStats::new(0, 0)), (Vec::new(), false));
    select(&mut state, &a, MailboxStats::new(1, 2));
    assert_eq!(
        select(&mut state, &closed, MailboxStats::new(0, 0)),
        (vec!["CLOSE".to_string()], false)
    );
    assert!(!state.close_needed());
    let error = SessionState::check_selectable(&closed).unwrap_err();
    assert_eq!(*error.kind(), ErrorKind::MailServer);
    assert_eq!(error.message(), "The mailbox is not selectable: Archive");
    assert!(SessionState::check_selectable(&a).is_ok());
}

#[test]
fn listing_closes_the_selected_mailbox_first() {
    let mut state = SessionState::new();
    assert!(!state.close_needed());
    state.selected("A".to_string(), MailboxStats::new(0, 1));
    assert!(state.close_needed());
    state.closed();
    assert!(!state.close_needed());
    assert_eq!(state.selected_id(), None);
}

#[test]
fn window_beyond_the_mailbox_is_clamped() {
    assert_eq!(message_window(5, 0, 10), Some((1, 5)));
    let request = get_messages_request(5, 0, 10).unwrap();
    assert_eq!(request.sequence, "1:5");
    assert_eq!(
        request.query,
        "(FLAGS RFC822.SIZE UID BODY[HEADER.FIELDS (From Date Subject)] BODYSTRUCTURE)"
    );
}

#[test]
fn empty_mailbox_is_not_fetched() {
    assert_eq!(message_window(0, 0, 10), None);
    assert!(get_messages_request(0, 0, 10).is_none());
}

#[test]
fn empty_window_is_not_fetched() {
    assert!(dust_mail::session::is_empty_window(3, 3));
    assert!(dust_mail::session::is_empty_window(4, 2));
    assert!(!dust_mail::session::is_empty_window(2, 4));
    assert!(get_messages_request(5, 3, 3).is_none());
    assert!(get_messages_request(5, 4, 2).is_none());
}

#[test]
fn window_counts_back_from_the_most_recent_message() {
    // seq_start = max(1, total - end + 1), seq_end = max(1, total - start)
    assert_eq!(message_window(20, 0, 10), Some((11, 20)));
    assert_eq!(message_window(20, 10, 20), Some((1, 10)));
    assert_eq!(message_window(20, 5, 7), Some((14, 15)));
    assert_eq!(message_window(20, 19, 20), Some((1, 1)));
    assert_eq!(message_window(20, 20, 30), Some((1, 1)));
    assert_eq!(message_window(20, 25, 30), Some((1, 1)));
    assert_eq!(message_window(1, 0, 1), Some((1, 1)));
    assert_eq!(message_window(usize::MAX, 0, 1), Some((usize::MAX, usize::MAX)));
    assert_eq!(get_messages_request(20, 5, 7).unwrap().sequence, "14:15");
}

#[test]
fn whole_message_is_fetched_in_two_steps() {
    assert_eq!(message_query(), "(FLAGS UID BODYSTRUCTURE BODY[HEADER])");
    let part = |ty: &str, subtype: &str| {
        BodyStructure::Text(BodyPart::new(ty.to_string(), subtype.to_string(), None, 1))
    };
    let both = BodyStructure::Multipart(vec![part("text", "html"), part("text", "plain")]);
    let plan = BodyPlan::of(&both);
    assert_eq!(plan.text.as_ref().unwrap().to_text(), "2");
    assert_eq!(plan.html.as_ref().unwrap().to_text(), "1");
    assert_eq!(plan.query().unwrap(), "(BODY[2] BODY[1])");

    let html_only = BodyStructure::Multipart(vec![part("text", "html")]);
    let plan = BodyPlan::of(&html_only);
    assert!(plan.text.is_none());
    assert_eq!(plan.query().unwrap(), "(BODY[1])");

    // Neither part: no second fetch, and the message is shown without content.
    let neither = BodyStructure::Multipart(vec![part("image", "png")]);
    let plan = BodyPlan::of(&neither);
    assert!(plan.text.is_none() && plan.html.is_none());
    assert!(plan.query().is_none());
}

#[test]
fn rename_keeps_the_parent_path() {
    assert_eq!(renamed_id(Some("."), "INBOX.Work.Old", "New"), "INBOX.Work.New");
    assert_eq!(renamed_id(Some("."), "INBOX.Old", "New"), "INBOX.New");
    assert_eq!(renamed_id(Some("/"), "a/b/c/d", "e"), "a/b/c/e");
    assert_eq!(renamed_id(Some("."), "Old", "New"), "New");
    assert_eq!(renamed_id(Some("/"), "INBOX.Old", "New"), "New");
    assert_eq!(renamed_id(None, "INBOX.Old", "New"), "New");
}

#[test]
fn keep_alive_is_due_after_the_interval() {
    assert_eq!(KEEP_ALIVE_INTERVAL, 29 * 60);
    let mut state = SessionState::new();
    assert!(state.should_keep_alive(0));
    assert!(state.should_keep_alive(1_000_000));
    state.keep_alive_sent(100);
    assert!(!state.should_keep_alive(100));
    assert!(!state.should_keep_alive(100 + KEEP_ALIVE_INTERVAL - 1));
    assert!(!state.should_keep_alive(100 + KEEP_ALIVE_INTERVAL));
    assert!(state.should_keep_alive(100 + KEEP_ALIVE_INTERVAL + 1));
    assert!(!state.should_keep_alive(50));
}

#[test]
fn attachment_is_fetched_by_its_part_number() {
    let (number, query) = attachment_request("2.1").unwrap();
    assert_eq!(number.to_text(), "2.1");
    assert_eq!(query, "(BODY[2.1])");
    let error = attachment_request("two").unwrap_err();
    assert_eq!(*error.kind(), ErrorKind::ParseInt);
}

#[test]
fn empty_or_missing_section_is_no_attachment() {
    assert_eq!(attachment_bytes(Some(vec![1, 2, 3]), "2").unwrap(), vec![1, 2, 3]);
    let error = attachment_bytes(Some(Vec::new()), "2").unwrap_err();
    assert_eq!(*error.kind(), ErrorKind::AttachmentNotFound);
    assert_eq!(error.message(), "Could not find an attachment with id 2");
    let error = attachment_bytes(None, "2").unwrap_err();
    assert_eq!(*error.kind(), ErrorKind::AttachmentNotFound);
}

#[test]
fn mailbox_is_found_in_the_tree_by_id() {
    let entries = || {
        vec![
            NameEntry::new("INBOX", Some("."), true),
            NameEntry::new("INBOX.Sent", Some("."), true),
            NameEntry::new("Trash", Some("."), true),
        ]
    };
    let node = find_mailbox(build_mailbox_tree(entries()), "inbox.sent").unwrap();
    assert_eq!(node.data().unwrap().id(), "INBOX.Sent");
    let node = find_mailbox(build_mailbox_tree(entries()), "INBOX").unwrap();
    assert_eq!(node.data().unwrap().id(), "INBOX");
    let error = find_mailbox(build_mailbox_tree(entries()), "Drafts").unwrap_err();
    assert_eq!(*error.kind(), ErrorKind::MailBoxNotFound);
}

#[test]
fn found_mailbox_gets_the_counts_of_the_selection() {
    let node = find_mailbox(
        build_mailbox_tree(vec![
            NameEntry::new("INBOX", Some("."), true),
            NameEntry::new("INBOX.Sent", Some("."), true),
        ]),
        "inbox",
    )
    .unwrap();
    let node = with_stats(node, MailboxStats::new(2, 9));
    let mailbox = node.data().unwrap();
    assert_eq!(mailbox.id(), "INBOX");
    assert_eq!(mailbox.stats().unwrap().total(), 9);
    assert_eq!(mailbox.stats().unwrap().unseen(), 2);
    assert!(matches!(&node, Node::Branch { children, .. } if children.len() == 1));
    let root: Node<Mailbox> = Node::empty_root();
    assert!(with_stats(root, MailboxStats::new(1, 1)).data().is_none());
    assert_eq!(CHECK_TIME, 5);
}
