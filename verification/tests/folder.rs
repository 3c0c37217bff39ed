use dust_mail::folder::{MailBox, MailBoxList, MessageCounts};
use dust_mail::mailbox::NameEntry;

#[test]
fn find_box() {
    let delimiter = Some(String::from("."));

    let box1 = MailBox::new(None, delimiter.clone(), vec![], true, "box1", "box1");

    let box3 = MailBox::new(None, delimiter.clone(), vec![], true, "box2.box1", "box3");

    let box4 = MailBox::new(None, delimiter.clone(), vec![], true, "box2.box2", "box4");

    let box2 = MailBox::new(
        None,
        delimiter.clone(),
        vec![box3.clone(), box4.clone()],
        true,
        "box2",
        "box2",
    );

    let mock_boxes = vec![box1.clone(), box2.clone()];

    assert_eq!(
        MailBoxList::find_box_in_list(&mock_boxes, "box1").unwrap(),
        &box1
    );
    assert_eq!(
        MailBoxList::find_box_in_list(&mock_boxes, "box2").unwrap(),
        &box2
    );
    assert_eq!(
        MailBoxList::find_box_in_list(&mock_boxes, "box2.box1").unwrap(),
        &box3
    );
    assert_eq!(
        MailBoxList::find_box_in_list(&mock_boxes, "box2.box2").unwrap(),
        &box4
    );

    assert_eq!(MailBoxList::find_box_in_list(&mock_boxes, "box3"), None);
}

#[test]
fn mailbox_display() {
    let delimiter = Some(String::from("."));

    let box1 = MailBox::new(None, delimiter.clone(), vec![], true, "box1", "box1");

    println!("{}", box1.to_text());

    let box5 = MailBox::new(
        Some(MessageCounts::new(30, 50)),
        delimiter.clone(),
        vec![],
        true,
        "box2.box1.box1",
        "box5",
    );

    let box6 = MailBox::new(
        Some(MessageCounts::new(30, 50)),
        delimiter.clone(),
        vec![],
        true,
        "box2.box1.box2",
        "box6",
    );

    let box3 = MailBox::new(
        None,
        delimiter.clone(),
        vec![box5, box6],
        true,
        "box2.box1",
        "box3",
    );

    let box4 = MailBox::new(None, delimiter.clone(), vec![], true, "box2.box2", "box4");

    let box2 = MailBox::new(
        None,
        delimiter.clone(),
        vec![box3, box4],
        true,
        "box2",
        "box2",
    );

    println!("{}", box2.to_text());

    let tree: MailBoxList = vec![box2, box1].into();

    println!("{}", tree.to_text())
}

#[test]
fn mailbox_text_is_indented_by_depth() {
    let delimiter = Some(String::from("."));
    let leaf = MailBox::new(
        Some(MessageCounts::new(30, 50)),
        delimiter.clone(),
        vec![],
        true,
        "a.b.c",
        "c",
    );
    assert_eq!(
        leaf.to_text(),
        "   |--c: Total messages: 50 | Unseen messages: 30"
    );
    let parent = MailBox::new(None, delimiter.clone(), vec![leaf], true, "a.b", "b");
    assert_eq!(
        parent.to_text(),
        "|--b\r\n   |--c: Total messages: 50 | Unseen messages: 30"
    );
    let top = MailBox::new(None, None, vec![], false, "top", "top");
    assert_eq!(top.to_text(), "top");
}

#[test]
fn folder_tree_keeps_first_seen_order() {
    let delimiter = Some(String::from("."));
    let inbox = MailBox::new(None, delimiter.clone(), vec![], true, "inbox", "inbox");
    let work = MailBox::new(None, delimiter.clone(), vec![], true, "inbox.work", "work");
    let plain = MailBox::new(None, None, vec![], true, "plain", "plain");
    let tree = MailBoxList::new(vec![work, inbox, plain]);
    let top = tree.get_vec();
    assert_eq!(top.len(), 2);
    assert_eq!(top[0].id(), "inbox");
    assert_eq!(top[0].children().len(), 1);
    assert_eq!(top[0].children()[0].id(), "inbox.work");
    assert_eq!(top[1].id(), "plain");
    assert_eq!(tree.get_box("inbox.work").unwrap().name(), "work");
    assert!(tree.get_box("missing").is_none());
    assert_eq!(tree.to_text(), "Mailbox tree:\r\ninbox\r\n|--work\r\nplain");
}

#[test]
fn folder_tree_follows_the_ids() {
    let delimiter = Some(String::from("."));
    let a = MailBox::new(None, delimiter.clone(), vec![], true, "a", "a");
    let b = MailBox::new(None, delimiter.clone(), vec![], true, "a.b", "b");
    let tree = MailBoxList::build_folder_tree(vec![a, b]);
    assert_eq!(tree.len(), 1);
    assert_eq!(tree[0].id(), "a");
    assert_eq!(tree[0].children().len(), 1);
    assert_eq!(tree[0].children()[0].id(), "a.b");
    assert!(tree[0].children()[0].children().is_empty());

    // The name plays no part: the hierarchy is in the id.
    let odd = MailBox::new(None, delimiter.clone(), vec![], true, "x.y", "a.b.c");
    let x = MailBox::new(None, delimiter.clone(), vec![], true, "x", "nothing.like.x");
    let tree = MailBoxList::build_folder_tree(vec![odd, x]);
    assert_eq!(tree.len(), 1);
    assert_eq!(tree[0].id(), "x");
    assert_eq!(tree[0].children()[0].id(), "x.y");
}

#[test]
fn folder_that_is_not_in_the_list_is_passed_over() {
    let delimiter = Some(String::from("."));
    let only = MailBox::new(None, delimiter.clone(), vec![], true, "a.b", "b");
    let tree = MailBoxList::build_folder_tree(vec![only]);
    assert_eq!(tree.len(), 1);
    assert_eq!(tree[0].id(), "a.b");

    let deep = MailBox::new(None, delimiter.clone(), vec![], true, "x.a.b", "b");
    let side = MailBox::new(None, delimiter.clone(), vec![], true, "x.b", "b");
    let x = MailBox::new(None, delimiter.clone(), vec![], true, "x", "x");
    let tree = MailBoxList::build_folder_tree(vec![side, deep, x]);
    assert_eq!(tree.len(), 1);
    let ids: Vec<&str> = tree[0].children().iter().map(|child| child.id()).collect();
    assert_eq!(ids, vec!["x.b", "x.a.b"]);
}

#[test]
fn get_box_mut_finds_what_get_box_finds() {
    let delimiter = Some(String::from("."));
    let deep = MailBox::new(None, delimiter.clone(), vec![], true, "a.b.c", "c");
    let child = MailBox::new(None, delimiter.clone(), vec![deep], true, "a.b", "b");
    let parent = MailBox::new(None, delimiter.clone(), vec![child], true, "a", "a");
    let other = MailBox::new(None, delimiter.clone(), vec![], true, "z", "z");
    let mut list = vec![other, parent];
    let found = MailBoxList::find_box_in_list_mut(&mut list, "a").unwrap();
    found.create_counts(MessageCounts::new(1, 2));
    assert_eq!(*list[1].counts().unwrap().total(), 2);
    assert_eq!(*list[1].counts().unwrap().unseen(), 1);
    let found = MailBoxList::find_box_in_list_mut(&mut list, "a.b.c").unwrap();
    assert_eq!(found.name(), "c");
    found.create_counts(MessageCounts::new(3, 4));
    assert_eq!(*list[1].children()[0].children()[0].counts().unwrap().total(), 4);
    assert!(list[1].children()[0].counts().is_none());
    assert!(MailBoxList::find_box_in_list_mut(&mut list, "a.c").is_none());

    let mut tree = MailBoxList::new(list);
    assert_eq!(tree.get_box_mut("a.b").unwrap().id(), "a.b");
    tree.get_box_mut("a").unwrap().children_mut().clear();
    assert!(tree.get_box("a.b").is_none());
    assert!(tree.get_box_mut("a.b").is_none());
    tree.get_vec_mut().clear();
    assert!(tree.get_box("a").is_none());
    assert_eq!(tree.to_vec().len(), 0);
    assert_eq!(MailBoxList::default().to_text(), "Mailbox tree:");
}

#[test]
fn listed_mailbox_is_named_by_its_last_segment() {
    let mailbox = MailBox::from_entry(&NameEntry::new("INBOX/test/spam", Some("/"), true));
    assert_eq!(mailbox.id(), "INBOX/test/spam");
    assert_eq!(mailbox.name(), "spam");
    assert_eq!(mailbox.delimiter(), Some("/"));
    assert!(*mailbox.selectable());
    assert!(mailbox.counts().is_none());
    assert!(mailbox.children().is_empty());
    assert_eq!(
        mailbox.id_delimited(),
        Some(vec!["INBOX".to_string(), "test".to_string(), "spam".to_string()])
    );
    // Without a delimiter the id is split on a dot.
    let mailbox = MailBox::from_entry(&NameEntry::new("INBOX.test/spam", None, false));
    assert_eq!(mailbox.name(), "test/spam");
    assert_eq!(mailbox.delimiter(), None);
    assert_eq!(mailbox.id_delimited(), None);
    assert!(!*mailbox.selectable());
    let counts = MessageCounts::from_counts(9, Some(4));
    assert_eq!((*counts.unseen(), *counts.total()), (4, 9));
    assert_eq!(MessageCounts::from_counts(9, None).to_text(), "Total messages: 9 | Unseen messages: 0");
    assert_eq!(*MessageCounts::default().total(), 0);
    let empty = MailBox::default();
    assert_eq!((empty.id(), empty.name()), ("", ""));
    assert_eq!(*empty.counts().unwrap().total(), 0);
}
