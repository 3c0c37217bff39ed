use dust_mail::mailbox::{build_mailbox_tree, Mailbox, MailboxFinder, MailboxStats, NameEntry};
use dust_mail::tree::{Find, Node};

fn entry(name: &str) -> NameEntry {
    NameEntry::new(name, Some("."), true)
}

/// The ids of a tree in pre-order, each with its depth below the top.
fn outline(node: &Node<Mailbox>, depth: usize, out: &mut Vec<(usize, String)>) {
    match node {
        Node::Root(children) => {
            for child in children {
                outline(child, depth, out);
            }
        }
        Node::Branch { data, children } => {
            out.push((depth, data.id().to_string()));
            for child in children {
                outline(child, depth + 1, out);
            }
        }
        Node::Leaf(data) => out.push((depth, data.id().to_string())),
    }
}

fn outline_of(node: &Node<Mailbox>) -> Vec<(usize, String)> {
    let mut out = Vec::new();
    outline(node, 0, &mut out);
    out
}

fn expect(pairs: &[(usize, &str)]) -> Vec<(usize, String)> {
    pairs.iter().map(|(depth, id)| (*depth, id.to_string())).collect()
}

#[test]
fn tree_follows_the_delimiters() {
    let tree = build_mailbox_tree(vec![
        entry("INBOX"),
        entry("INBOX.Sent"),
        entry("INBOX.Sent.2020"),
        entry("Trash"),
    ]);
    assert!(matches!(tree, Node::Root(_)));
    assert_eq!(
        outline_of(&tree),
        expect(&[(0, "INBOX"), (1, "INBOX.Sent"), (2, "INBOX.Sent.2020"), (0, "Trash")])
    );
    match &tree {
        Node::Root(children) => {
            assert!(matches!(children[0], Node::Branch { .. }));
            assert!(matches!(children[1], Node::Leaf(_)));
        }
        _ => unreachable!(),
    }
}

#[test]
fn tree_does_not_depend_on_the_order_of_the_listing() {
    let tree = build_mailbox_tree(vec![
        entry("INBOX.Sent.2020"),
        entry("Trash"),
        entry("INBOX.Sent"),
        entry("INBOX"),
    ]);
    assert_eq!(
        outline_of(&tree),
        expect(&[(0, "INBOX"), (1, "INBOX.Sent"), (2, "INBOX.Sent.2020"), (0, "Trash")])
    );
}

#[test]
fn tree_holds_exactly_the_listed_ids_where_parents_are_listed() {
    let names = ["a", "a.b", "a.b.c", "a.d", "e", "e.f"];
    let tree = build_mailbox_tree(names.iter().map(|name| entry(name)).collect());
    let mut found: Vec<String> = outline_of(&tree).into_iter().map(|(_, id)| id).collect();
    found.sort();
    let mut wanted: Vec<String> = names.iter().map(|name| name.to_string()).collect();
    wanted.sort();
    assert_eq!(found, wanted);
    // Pre-order, and each child one below the mailbox whose id begins its own.
    assert_eq!(
        outline_of(&tree),
        expect(&[(0, "a"), (1, "a.b"), (2, "a.b.c"), (1, "a.d"), (0, "e"), (1, "e.f")])
    );
}

#[test]
fn each_listed_name_stands_once_below_its_parent() {
    // Names that are listed twice, and names that begin one another without
    // the delimiter between them.
    let names = ["ab.c", "a", "ab", "a.b", "a", "a.b", "a.bc", "a.b.c"];
    let tree = build_mailbox_tree(names.iter().map(|name| entry(name)).collect());
    assert_eq!(
        outline_of(&tree),
        expect(&[(0, "ab"), (1, "ab.c"), (0, "a"), (1, "a.b"), (2, "a.b.c"), (1, "a.bc")])
    );
}

#[test]
fn folder_that_is_not_listed_is_not_made_up() {
    // `a` is not listed: it is passed over, and `a.b` stands at the top.
    let tree = build_mailbox_tree(vec![entry("a.b")]);
    match &tree {
        Node::Leaf(mailbox) => {
            assert_eq!(mailbox.id(), "a.b");
            assert_eq!(mailbox.name(), "b");
        }
        other => panic!("expected a leaf, got {:?}", other),
    }
    let tree = build_mailbox_tree(vec![entry("a.b"), entry("c")]);
    assert_eq!(outline_of(&tree), expect(&[(0, "a.b"), (0, "c")]));
    // An unlisted folder in the middle is passed over too.
    let tree = build_mailbox_tree(vec![entry("x"), entry("x.a.b"), entry("y.z.w")]);
    assert_eq!(outline_of(&tree), expect(&[(0, "x"), (1, "x.a.b"), (0, "y.z.w")]));
}

#[test]
fn single_mailbox_is_the_whole_tree() {
    let tree = build_mailbox_tree(vec![entry("INBOX")]);
    match tree {
        Node::Leaf(mailbox) => {
            assert_eq!(mailbox.id(), "INBOX");
            assert_eq!(mailbox.name(), "INBOX");
        }
        other => panic!("expected a leaf, got {:?}", other),
    }
    let tree = build_mailbox_tree(Vec::new());
    assert!(matches!(tree, Node::Root(ref children) if children.is_empty()));
}

#[test]
fn lookup_ignores_case_and_ids_keep_theirs() {
    let tree = build_mailbox_tree(vec![entry("Inbox"), entry("INBOX.Sent")]);
    // `INBOX` is looked up as `inbox` and found in `Inbox`.
    assert_eq!(outline_of(&tree), expect(&[(0, "Inbox"), (1, "INBOX.Sent")]));
    let found = tree.find(&MailboxFinder::with_id("inbox.SENT")).unwrap();
    assert_eq!(found.data().unwrap().id(), "INBOX.Sent");
}

#[test]
fn entries_without_delimiter_stand_at_the_top() {
    let tree = build_mailbox_tree(vec![
        NameEntry::new("a.b", None, true),
        NameEntry::new("a", None, false),
    ]);
    assert_eq!(outline_of(&tree), expect(&[(0, "a.b"), (0, "a")]));
    match &tree {
        Node::Root(children) => {
            let first = children[0].data().unwrap();
            assert_eq!(first.name(), "a.b");
            assert!(*first.selectable());
            assert!(!*children[1].data().unwrap().selectable());
        }
        _ => unreachable!(),
    }
}

#[test]
fn mailbox_name_is_the_last_segment() {
    let mailbox = Mailbox::from_entry(&NameEntry::new("INBOX/test/spam", Some("/"), false));
    assert_eq!(mailbox.id(), "INBOX/test/spam");
    assert_eq!(mailbox.name(), "spam");
    assert!(!*mailbox.selectable());
    assert!(mailbox.stats().is_none());
    let mailbox = Mailbox::from_entry(&NameEntry::new("INBOX/test/", Some("/"), true));
    assert_eq!(mailbox.name(), "");
    let entry = NameEntry::new("x", Some("/"), true);
    assert_eq!(entry.name(), "x");
    assert_eq!(entry.delimiter(), Some("/"));
    assert!(entry.selectable());
}

#[test]
fn finder_matches_lowercased_ids() {
    let finder = MailboxFinder::with_id("INBOX.Äpfel");
    assert!(finder.find(&Mailbox::new(None, true, "inbox.äpfel", "x")));
    assert!(finder.find(&Mailbox::new(None, true, "Inbox.ÄPFEL", "x")));
    assert!(!finder.find(&Mailbox::new(None, true, "inbox", "x")));
}

#[test]
fn mailbox_stats_and_defaults() {
    let stats = MailboxStats::new(3, 10);
    assert_eq!(stats.unseen(), 3);
    assert_eq!(stats.total(), 10);
    assert_eq!(stats.to_text(), "Total messages: 10 | Unseen messages: 3");
    let counted = MailboxStats::from_counts(12, Some(5));
    assert_eq!((counted.unseen(), counted.total()), (5, 12));
    let counted = MailboxStats::from_counts(12, None);
    assert_eq!((counted.unseen(), counted.total()), (0, 12));
    let none = MailboxStats::default();
    assert_eq!((none.unseen(), none.total()), (0, 0));

    let mailbox = Mailbox::default();
    assert_eq!(mailbox.id(), "default_inbox");
    assert_eq!(mailbox.name(), "Inbox");
    assert!(*mailbox.selectable());
    assert_eq!(mailbox.stats().unwrap().total(), 0);

    let mut mailbox: Mailbox = stats.into();
    assert_eq!(mailbox.id(), "default_inbox");
    assert_eq!(mailbox.stats().unwrap().unseen(), 3);
    mailbox.set_stats(MailboxStats::new(1, 2));
    assert_eq!(mailbox.stats().unwrap().total(), 2);
    assert_eq!(mailbox, Mailbox::new(None, false, "default_inbox", "other"));
    assert!(mailbox != Mailbox::new(None, true, "other", "Inbox"));
    assert_eq!(mailbox.clone().name(), "Inbox");
}
