use dust_mail::error::ErrorKind;
use dust_mail::pop::{
    get_inbox, get_index_listed, get_index_step, message_numbers, should_keep_alive, unsupported,
    IndexStep, UniqueIdMap, ACTIVITY_TIMEOUT,
};

fn listing(pairs: &[(&str, usize)]) -> Vec<(String, usize)> {
    pairs.iter().map(|(id, index)| (id.to_string(), *index)).collect()
}

#[test]
fn unknown_id_asks_for_one_listing_and_no_second() {
    let mut map = UniqueIdMap::new();
    let mut listings = 0;
    let bulk = listing(&[("aaa", 1), ("bbb", 2), ("ccc", 3)]);

    let mut index_of = |map: &mut UniqueIdMap, id: &str| match get_index_step(map, id) {
        IndexStep::Known(index) => Ok(index),
        IndexStep::List => {
            listings += 1;
            get_index_listed(map, &bulk, id)
        }
    };

    assert_eq!(index_of(&mut map, "bbb").unwrap(), 2);
    assert_eq!(index_of(&mut map, "ccc").unwrap(), 3);
    assert_eq!(index_of(&mut map, "aaa").unwrap(), 1);
    assert_eq!(listings, 1);
}

#[test]
fn id_that_no_listing_holds_is_not_found() {
    let mut map = UniqueIdMap::new();
    assert_eq!(get_index_step(&map, "zzz"), IndexStep::List);
    let error = get_index_listed(&mut map, &listing(&[("aaa", 1)]), "zzz").unwrap_err();
    assert_eq!(*error.kind(), ErrorKind::MessageNotFound);
    assert_eq!(error.message(), "Could not find a message with id zzz");
    // The listing was taken in all the same.
    assert_eq!(get_index_step(&map, "aaa"), IndexStep::Known(1));
}

#[test]
fn map_gives_each_id_one_number() {
    let mut map = UniqueIdMap::new();
    assert_eq!(map.get("a"), None);
    map.set("a", 1);
    map.set("b", 2);
    assert_eq!(map.get("a"), Some(1));
    assert_eq!(map.get("b"), Some(2));
    map.set("a", 7);
    assert_eq!(map.get("a"), Some(7));
    assert_eq!(map.get("b"), Some(2));
    assert_eq!(map.get_id(7), Some("a"));
    assert_eq!(map.get_id(2), Some("b"));
    assert_eq!(map.get_id(1), None);
}

#[test]
fn reset_forgets_every_id() {
    let mut map = UniqueIdMap::new();
    map.extend(&listing(&[("a", 1), ("b", 2)]));
    assert_eq!(map.get("b"), Some(2));
    map.reset();
    assert_eq!(map.get("a"), None);
    assert_eq!(map.get("b"), None);
    assert_eq!(map.get_id(1), None);
}

#[test]
fn later_pairs_of_a_listing_overwrite_earlier_ones() {
    let mut map = UniqueIdMap::new();
    map.set("a", 9);
    map.extend(&listing(&[("a", 1), ("b", 2), ("a", 3)]));
    assert_eq!(map.get("a"), Some(3));
    assert_eq!(map.get("b"), Some(2));
    assert_eq!(map.get_id(3), Some("a"));
    assert_eq!(map.get_id(1), None);
}

#[test]
fn pop_windows_end_one_behind_the_last_number() {
    assert_eq!(message_numbers(5, 0, 10), (1, 6));
    assert_eq!(message_numbers(20, 0, 10), (11, 21));
    assert_eq!(message_numbers(20, 10, 20), (1, 11));
    assert_eq!(message_numbers(20, 25, 30), (1, 1));
    assert_eq!(message_numbers(0, 0, 10), (1, 1));
    assert_eq!(message_numbers(usize::MAX, 0, 0), (usize::MAX, usize::MAX));
}

#[test]
fn pop_ping_is_due_after_ten_idle_minutes() {
    assert_eq!(ACTIVITY_TIMEOUT, 600);
    assert!(!should_keep_alive(None));
    assert!(!should_keep_alive(Some(0)));
    assert!(!should_keep_alive(Some(600)));
    assert!(should_keep_alive(Some(601)));
}

#[test]
fn pop_has_one_mailbox_and_no_mailbox_operations() {
    let inbox = get_inbox(42);
    assert_eq!(inbox.id(), "default_inbox");
    assert_eq!(inbox.name(), "Inbox");
    assert_eq!(inbox.stats().unwrap().total(), 42);
    assert_eq!(inbox.stats().unwrap().unseen(), 0);
    let error = unsupported("Pop does not support deleting mailboxes");
    assert_eq!(*error.kind(), ErrorKind::Unsupported);
    assert_eq!(error.message(), "Pop does not support deleting mailboxes");
    let error = dust_mail::pop::delete_mailbox("inbox").unwrap_err();
    assert_eq!(*error.kind(), ErrorKind::Unsupported);
    assert_eq!(error.message(), "Pop does not support deleting mailboxes");
    let error = dust_mail::pop::rename_mailbox("inbox", "other").unwrap_err();
    assert_eq!(*error.kind(), ErrorKind::Unsupported);
    assert_eq!(error.message(), "Pop does not support renaming mailboxes");
    let error = dust_mail::pop::create_mailbox("other").unwrap_err();
    assert_eq!(*error.kind(), ErrorKind::Unsupported);
    assert_eq!(error.message(), "Pop does not support creating mailboxes");
}
