//! The decisions of a client that reads a mail directory.

use crate::builder::{BuilderView, MessageBuilder};
use crate::error::{Error, ErrorKind};
use crate::flag::{entry_flags, Flag};
use crate::mailbox::{default_mailbox, Mailbox, MailboxStats, MailboxView, StatsView};
use vstd::prelude::*;

verus! {

/// The two directories of messages in a mail directory.
#[derive(Debug, Clone, Copy, PartialEq, Eq, Structural)]
pub enum DirType {
    Current,
    New,
}

/// The sum of two counts, kept within what a count can hold.
pub open spec fn count_sum(a: nat, b: nat) -> nat {
    if a + b > usize::MAX {
        usize::MAX as nat
    } else {
        a + b
    }
}

/// The one mailbox of a mail directory: the new messages are unseen, and the
/// new and the current messages together are all.
pub fn get_inbox(new: usize, current: usize) -> (inbox: Mailbox)
    ensures
        inbox@ == (MailboxView {
            stats: Some(StatsView { unseen: new as nat, total: count_sum(new as nat, current as nat) }),
            ..default_mailbox()
        }),
{
    Mailbox::with_stats(MailboxStats::new(new, new.saturating_add(current)))
}

/// What is known of a stored message: what the message says of itself, its
/// id, and the flags for the marks that its entry bears.
pub fn entry_builder(
    builder: MessageBuilder,
    id: &str,
    seen: bool,
    flagged: bool,
    draft: bool,
    trashed: bool,
    replied: bool,
) -> (with_flags: MessageBuilder)
    ensures
        with_flags@ == (BuilderView {
            flags: builder@.flags + entry_flags(seen, flagged, draft, trashed, replied),
            id: Some(id@),
            ..builder@
        }),
{
    builder.flags(Flag::of_entry(seen, flagged, draft, trashed, replied)).id(id)
}

/// The items of a page: those from place `start` up to place `end`, as far as
/// there are items. A page that starts behind the last item, or that ends
/// before it starts, is empty.
pub open spec fn page_of<T>(items: Seq<T>, start: nat, end: nat) -> Seq<T> {
    if items.len() <= start || end <= start {
        Seq::empty()
    } else if end < items.len() {
        items.subrange(start as int, end as int)
    } else {
        items.subrange(start as int, items.len() as int)
    }
}

/// Cuts a page out of a list of items.
pub fn page<T>(items: Vec<T>, start: usize, end: usize) -> (cut: Vec<T>)
    ensures
        cut@ == page_of(items@, start as nat, end as nat),
{
    let mut rest = items;
    if rest.len() <= start || end <= start {
        return Vec::new();
    }
    let end = if end < rest.len() {
        end
    } else {
        rest.len()
    };
    rest.truncate(end);
    let mut cut: Vec<T> = Vec::new();
    let ghost kept = rest@;
    assert(kept == items@.subrange(0, end as int));
    while rest.len() > start
        invariant
            start < end,
            kept.len() == end,
            rest@.len() + cut@.len() == end,
            rest@.len() >= start,
            rest@ == kept.subrange(0, rest@.len() as int),
            cut@ == kept.subrange(rest@.len() as int, end as int),
        decreases rest@.len(),
    {
        let ghost before = cut@;
        match rest.pop() {
            Some(item) => {
                cut.insert(0, item);
                assert(cut@ =~= kept.subrange(rest@.len() as int, end as int));
                assert(rest@ =~= kept.subrange(0, rest@.len() as int));
            },
            None => {},
        }
    }
    assert(cut@ =~= items@.subrange(start as int, end as int));
    cut
}

/// The error for a message that the directory does not hold.
pub fn not_found(id: &str) -> (error: Error)
    ensures
        error@.kind == ErrorKind::MessageNotFound,
        error@.message == "Could not find a message with id "@ + id@,
{
    Error::about(ErrorKind::MessageNotFound, "Could not find a message with id ", id)
}

} // verus!
