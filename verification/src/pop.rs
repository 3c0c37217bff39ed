//! The decisions of a POP session: the map from the permanent id of a message
//! to its number in this session, and the windows of message numbers.
//!
//! POP addresses a message by a number that holds for one session only. The
//! map is filled from a listing of all messages when an id is asked for that
//! it does not hold, and is emptied at logout.

use crate::error::{Error, ErrorKind};
use crate::mailbox::{Mailbox, MailboxStats, StatsView};
use crate::pairs::{
    extended, keys_unique, lemma_extended_knows, lemma_position_extends, lemma_put, position, put,
    value_of, Pairs,
};
use vstd::prelude::*;

verus! {

/// The seconds of silence after which a POP session is pinged: ten minutes.
pub const ACTIVITY_TIMEOUT: u64 = 600;

/// The ids with their numbers that a map holds, in the order in which the ids came.
pub type IdNumbers = Pairs<usize>;

/// The first place at which the number `index` stands among the first `count` pairs.
pub open spec fn place_of_number(pairs: IdNumbers, index: usize, count: int) -> Option<int>
    decreases count,
{
    if count <= 0 || count > pairs.len() {
        None
    } else {
        match place_of_number(pairs, index, count - 1) {
            Some(at) => Some(at),
            None => if pairs[count - 1].1 == index {
                Some(count - 1)
            } else {
                None
            },
        }
    }
}

/// The id of the first pair that holds the number `index`.
pub open spec fn id_of(pairs: IdNumbers, index: usize) -> Option<Seq<char>> {
    match place_of_number(pairs, index, pairs.len() as int) {
        Some(at) => Some(pairs[at].0),
        None => None,
    }
}

/// The views of a sequence of pairs.
pub open spec fn pair_views(pairs: Seq<(String, usize)>) -> IdNumbers {
    Seq::new(pairs.len(), |i: int| (pairs[i].0@, pairs[i].1))
}

/// The map from the permanent id of a message to its number in this session.
/// No id stands in it twice.
#[derive(Debug)]
pub struct UniqueIdMap {
    map: Vec<(String, usize)>,
}

impl View for UniqueIdMap {
    type V = IdNumbers;

    closed spec fn view(&self) -> IdNumbers {
        pair_views(self.map@)
    }
}

impl UniqueIdMap {
    #[verifier::type_invariant]
    spec fn well_formed(self) -> bool {
        keys_unique(pair_views(self.map@))
    }

    /// A map without ids.
    pub fn new() -> (map: Self)
        ensures
            map@ == IdNumbers::empty(),
            keys_unique(map@),
    {
        let map = Self { map: Vec::new() };
        assert(map@ =~= IdNumbers::empty());
        map
    }

    /// Forgets every id.
    pub fn reset(&mut self)
        ensures
            final(self)@ == IdNumbers::empty(),
            keys_unique(final(self)@),
    {
        self.map = Vec::new();
        assert(self@ =~= IdNumbers::empty());
    }

    /// The id of the message with the number `index`.
    pub fn get_id(&self, index: usize) -> (id: Option<&str>)
        ensures
            match id {
                Some(id) => id_of(self@, index) == Some(id@),
                None => id_of(self@, index) is None,
            },
    {
        let mut i: usize = 0;
        while i < self.map.len()
            invariant
                0 <= i <= self.map.len(),
                place_of_number(pair_views(self.map@), index, i as int) is None,
            decreases self.map.len() - i,
        {
            assert(pair_views(self.map@)[i as int] == (self.map@[i as int].0@, self.map@[i as int].1));
            if self.map[i].1 == index {
                proof {
                    lemma_place_extends(pair_views(self.map@), index, i + 1, self.map@.len() as int);
                }
                return Some(self.map[i].0.as_str());
            }
            i += 1;
        }
        None
    }

    fn find(&self, id: &str) -> (at: Option<usize>)
        ensures
            match at {
                Some(at) => position(self@, id@, self@.len() as int) == Some(at as int) && at
                    < self.map@.len(),
                None => position(self@, id@, self@.len() as int) is None,
            },
    {
        let mut i: usize = 0;
        while i < self.map.len()
            invariant
                0 <= i <= self.map.len(),
                position(pair_views(self.map@), id@, i as int) is None,
            decreases self.map.len() - i,
        {
            assert(pair_views(self.map@)[i as int] == (self.map@[i as int].0@, self.map@[i as int].1));
            if crate::text::same_text(self.map[i].0.as_str(), id) {
                proof {
                    lemma_position_extends(
                        pair_views(self.map@),
                        id@,
                        i + 1,
                        self.map@.len() as int,
                    );
                }
                return Some(i);
            }
            i += 1;
        }
        None
    }

    /// The number of the message with the id `id`.
    pub fn get(&self, id: &str) -> (index: Option<usize>)
        ensures
            index == value_of(self@, id@),
    {
        match self.find(id) {
            Some(at) => {
                assert(pair_views(self.map@)[at as int] == (
                    self.map@[at as int].0@,
                    self.map@[at as int].1,
                ));
                Some(self.map[at].1)
            },
            None => None,
        }
    }

    /// Gives the message with the id `id` the number `index`.
    pub fn set(&mut self, id: &str, index: usize)
        ensures
            final(self)@ == put(old(self)@, id@, index),
            keys_unique(final(self)@),
            value_of(final(self)@, id@) == Some(index),
            forall|other: Seq<char>|
                other != id@ ==> value_of(final(self)@, other) == value_of(old(self)@, other),
    {
        proof {
            use_type_invariant(&*self);
            lemma_put(self@, id@, index);
        }
        let ghost before = self@;
        match self.find(id) {
            Some(at) => {
                let mut map = Vec::new();
                std::mem::swap(&mut map, &mut self.map);
                map.set(at, (id.to_owned(), index));
                assert(pair_views(map@) =~= before.update(at as int, (id@, index)));
                self.map = map;
            },
            None => {
                let mut map = Vec::new();
                std::mem::swap(&mut map, &mut self.map);
                map.push((id.to_owned(), index));
                assert(pair_views(map@) =~= before.push((id@, index)));
                self.map = map;
            },
        }
    }

    /// Takes in a listing of ids with their numbers, in order.
    pub fn extend(&mut self, listing: &Vec<(String, usize)>)
        ensures
            final(self)@ == extended(old(self)@, pair_views(listing@), listing@.len() as int),
            keys_unique(final(self)@),
    {
        proof {
            use_type_invariant(&*self);
        }
        let mut i: usize = 0;
        while i < listing.len()
            invariant
                0 <= i <= listing.len(),
                keys_unique(self@),
                self@ == extended(old(self)@, pair_views(listing@), i as int),
            decreases listing.len() - i,
        {
            assert(pair_views(listing@)[i as int] == (listing@[i as int].0@, listing@[i as int].1));
            self.set(listing[i].0.as_str(), listing[i].1);
            i += 1;
        }
    }
}

/// A first place among pairs without a match is a first place among more pairs.
pub proof fn lemma_place_extends(pairs: IdNumbers, index: usize, count: int, more: int)
    requires
        0 <= count <= more <= pairs.len(),
        place_of_number(pairs, index, count) is Some,
    ensures
        place_of_number(pairs, index, more) == place_of_number(pairs, index, count),
    decreases more - count,
{
    if more > count {
        lemma_place_extends(pairs, index, count, more - 1);
    }
}

/// What is to be done to learn the number of a message.
#[derive(Debug, Clone, Copy, PartialEq, Eq, Structural)]
pub enum IndexStep {
    /// The map holds the id: this is the number.
    Known(usize),
    /// The map does not hold the id: all messages are to be listed.
    List,
}

/// The next step towards the number of the message with the id `id`.
pub fn get_index_step(map: &UniqueIdMap, id: &str) -> (step: IndexStep)
    ensures
        step == match value_of(map@, id@) {
            Some(index) => IndexStep::Known(index),
            None => IndexStep::List,
        },
{
    match map.get(id) {
        Some(index) => IndexStep::Known(index),
        None => IndexStep::List,
    }
}

/// Takes in a listing of all messages and gives the number of the message
/// with the id `id`, which is not found where the listing does not hold it
/// either.
pub fn get_index_listed(map: &mut UniqueIdMap, listing: &Vec<(String, usize)>, id: &str) -> (index:
    Result<usize, Error>)
    ensures
        final(map)@ == extended(old(map)@, pair_views(listing@), listing@.len() as int),
        match index {
            Ok(index) => value_of(final(map)@, id@) == Some(index),
            Err(e) => value_of(final(map)@, id@) is None && e@.kind == ErrorKind::MessageNotFound,
        },
{
    map.extend(listing);
    match map.get(id) {
        Some(index) => Ok(index),
        None => Err(Error::about(ErrorKind::MessageNotFound, "Could not find a message with id ", id)),
    }
}

/// Once a listing was taken in, no id that stands in it asks for another listing.
pub proof fn lemma_no_second_listing(pairs: IdNumbers, listing: IdNumbers, at: int)
    requires
        0 <= at < listing.len(),
    ensures
        value_of(extended(pairs, listing, listing.len() as int), listing[at].0) is Some,
{
    lemma_extended_knows(pairs, listing, at, listing.len() as int);
}

/// The message numbers of a window, in a mailbox of `total` messages: from
/// the first of the pair up to, but not including, the second.
pub open spec fn pop_window(total: nat, start: nat, end: nat) -> (nat, nat) {
    (
        if total < end {
            1
        } else {
            at_most_max((total - end + 1) as nat)
        },
        if total < start {
            1
        } else {
            at_most_max((total - start + 1) as nat)
        },
    )
}

/// A message number, kept within what a message number can hold.
pub open spec fn at_most_max(n: nat) -> nat {
    if n > usize::MAX {
        usize::MAX as nat
    } else {
        n
    }
}

/// The message numbers of the window from the `start`-th to the `end`-th most
/// recent message: from the first of the pair up to, but not including, the second.
pub fn message_numbers(total: usize, start: usize, end: usize) -> (window: (usize, usize))
    ensures
        (window.0 as nat, window.1 as nat) == pop_window(total as nat, start as nat, end as nat),
{
    let first = if total < end {
        1
    } else {
        total.saturating_sub(end).saturating_add(1)
    };
    let last = if total < start {
        1
    } else {
        total.saturating_sub(start).saturating_add(1)
    };
    (first, last)
}

/// Whether a ping is due: something was sent before, and more than
/// [`ACTIVITY_TIMEOUT`] seconds have passed since.
pub fn should_keep_alive(idle_seconds: Option<u64>) -> (due: bool)
    ensures
        due == match idle_seconds {
            Some(idle) => idle > ACTIVITY_TIMEOUT,
            None => false,
        },
{
    match idle_seconds {
        Some(idle) => idle > ACTIVITY_TIMEOUT,
        None => false,
    }
}

/// The one mailbox of a POP account, with the number of its messages.
pub fn get_inbox(message_count: usize) -> (inbox: Mailbox)
    ensures
        inbox@ == (crate::mailbox::MailboxView {
            stats: Some(StatsView { unseen: 0, total: message_count as nat }),
            ..crate::mailbox::default_mailbox()
        }),
{
    Mailbox::with_stats(MailboxStats::new(0, message_count))
}

/// The error of an operation that POP does not know.
pub fn unsupported(message: &str) -> (error: Error)
    ensures
        error@.kind == ErrorKind::Unsupported,
        error@.message == message@,
{
    Error::new(ErrorKind::Unsupported, message.to_owned())
}

/// Deleting a mailbox: POP has one mailbox and cannot delete it.
pub fn delete_mailbox(box_id: &str) -> (done: Result<(), Error>)
    ensures
        done matches Err(e) && e@.kind == ErrorKind::Unsupported && e@.message
            == "Pop does not support deleting mailboxes"@,
{
    Err(unsupported("Pop does not support deleting mailboxes"))
}

/// Renaming a mailbox: POP has one mailbox and cannot rename it.
pub fn rename_mailbox(old_id: &str, new_id: &str) -> (done: Result<(), Error>)
    ensures
        done matches Err(e) && e@.kind == ErrorKind::Unsupported && e@.message
            == "Pop does not support renaming mailboxes"@,
{
    Err(unsupported("Pop does not support renaming mailboxes"))
}

/// Creating a mailbox: POP has one mailbox and cannot make another.
pub fn create_mailbox(box_id: &str) -> (done: Result<(), Error>)
    ensures
        done matches Err(e) && e@.kind == ErrorKind::Unsupported && e@.message
            == "Pop does not support creating mailboxes"@,
{
    Err(unsupported("Pop does not support creating mailboxes"))
}

} // verus!
