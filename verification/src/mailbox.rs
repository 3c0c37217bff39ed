//! Mailboxes, their message counts, and the tree that a flat listing of
//! delimiter-separated names stands for.

use crate::text::{decimal, decimal_text, join, join_text, lowercase, split, split_text, texts};
use crate::tree::{pred_of, Find, Node, Tree};
use vstd::prelude::*;
use vstd::string::StringExecFns;

verus! {

/// What a [`MailboxStats`] holds.
pub struct StatsView {
    pub unseen: nat,
    pub total: nat,
}

/// The number of unseen messages and of all messages in a mailbox.
#[derive(Debug, Clone, Copy)]
pub struct MailboxStats {
    unseen: usize,
    total: usize,
}

impl View for MailboxStats {
    type V = StatsView;

    closed spec fn view(&self) -> StatsView {
        StatsView { unseen: self.unseen as nat, total: self.total as nat }
    }
}

impl Default for MailboxStats {
    /// No messages at all.
    fn default() -> (stats: Self)
        ensures
            stats@ == (StatsView { unseen: 0, total: 0 }),
    {
        MailboxStats { unseen: 0, total: 0 }
    }
}

/// How message counts are displayed.
pub open spec fn stats_text(stats: StatsView) -> Seq<char> {
    "Total messages: "@ + decimal(stats.total) + " | Unseen messages: "@ + decimal(stats.unseen)
}

impl MailboxStats {
    pub fn new(unseen: usize, total: usize) -> (stats: Self)
        ensures
            stats@ == (StatsView { unseen: unseen as nat, total: total as nat }),
    {
        MailboxStats { unseen, total }
    }

    /// The counts that a server gives when a mailbox is selected: how many
    /// messages exist, and how many are unseen if the server says so.
    pub fn from_counts(exists: u32, unseen: Option<u32>) -> (stats: Self)
        ensures
            stats@ == (StatsView {
                unseen: match unseen {
                    Some(unseen) => unseen as nat,
                    None => 0,
                },
                total: exists as nat,
            }),
    {
        let unseen: u32 = match unseen {
            Some(unseen) => unseen,
            None => 0,
        };
        MailboxStats { unseen: unseen as usize, total: exists as usize }
    }

    /// The number of messages in this mailbox that have not been read.
    pub fn unseen(&self) -> (unseen: usize)
        ensures
            unseen == self@.unseen,
    {
        self.unseen
    }

    /// The number of messages in this mailbox.
    pub fn total(&self) -> (total: usize)
        ensures
            total == self@.total,
    {
        self.total
    }

    /// The counts as they are displayed.
    pub fn to_text(&self) -> (text: String)
        ensures
            text@ == stats_text(self@),
    {
        let mut text = "Total messages: ".to_owned();
        text.append(decimal_text(self.total as u64).as_str());
        text.append(" | Unseen messages: ");
        text.append(decimal_text(self.unseen as u64).as_str());
        text
    }
}

/// What a [`Mailbox`] holds.
pub struct MailboxView {
    pub stats: Option<StatsView>,
    pub selectable: bool,
    pub id: Seq<char>,
    pub name: Seq<char>,
}

/// A mailbox: its full hierarchical id, its name, whether it can be selected,
/// and its message counts once they are known.
#[derive(Debug)]
pub struct Mailbox {
    stats: Option<MailboxStats>,
    selectable: bool,
    id: String,
    name: String,
}

impl View for Mailbox {
    type V = MailboxView;

    closed spec fn view(&self) -> MailboxView {
        MailboxView {
            stats: match self.stats {
                Some(stats) => Some(stats@),
                None => None,
            },
            selectable: self.selectable,
            id: self.id@,
            name: self.name@,
        }
    }
}

impl Clone for Mailbox {
    fn clone(&self) -> (copy: Self)
        ensures
            copy@ == self@,
    {
        Mailbox {
            stats: self.stats,
            selectable: self.selectable,
            id: self.id.clone(),
            name: self.name.clone(),
        }
    }
}

impl PartialEq for Mailbox {
    /// Two mailboxes are the same where their ids are.
    fn eq(&self, other: &Self) -> (same: bool) {
        self.id == other.id
    }
}

impl vstd::std_specs::cmp::PartialEqSpecImpl for Mailbox {
    open spec fn obeys_eq_spec() -> bool {
        true
    }

    open spec fn eq_spec(&self, other: &Self) -> bool {
        self@.id == other@.id
    }
}

/// The mailbox of a protocol that knows no mailboxes.
pub open spec fn default_mailbox() -> MailboxView {
    MailboxView {
        stats: Some(StatsView { unseen: 0, total: 0 }),
        selectable: true,
        id: "default_inbox"@,
        name: "Inbox"@,
    }
}

impl Default for Mailbox {
    fn default() -> (mailbox: Self)
        ensures
            mailbox@ == default_mailbox(),
    {
        Mailbox {
            stats: Some(MailboxStats::default()),
            selectable: true,
            id: "default_inbox".to_owned(),
            name: "Inbox".to_owned(),
        }
    }
}

impl From<MailboxStats> for Mailbox {
    /// The default mailbox with the given counts.
    fn from(stats: MailboxStats) -> (mailbox: Self) {
        let mut mailbox = Mailbox::default();
        mailbox.stats = Some(stats);
        mailbox
    }
}

impl vstd::std_specs::convert::FromSpecImpl<MailboxStats> for Mailbox {
    open spec fn obeys_from_spec() -> bool {
        false
    }

    open spec fn from_spec(stats: MailboxStats) -> Self {
        arbitrary()
    }
}

impl Mailbox {
    pub fn new(counts: Option<MailboxStats>, selectable: bool, id: &str, name: &str) -> (mailbox: Self)
        ensures
            mailbox@ == (MailboxView {
                stats: match counts {
                    Some(stats) => Some(stats@),
                    None => None,
                },
                selectable,
                id: id@,
                name: name@,
            }),
    {
        Mailbox { stats: counts, selectable, id: id.to_owned(), name: name.to_owned() }
    }

    /// The default mailbox with the given counts.
    pub fn with_stats(stats: MailboxStats) -> (mailbox: Self)
        ensures
            mailbox@ == (MailboxView { stats: Some(stats@), ..default_mailbox() }),
    {
        let mut mailbox = Mailbox::default();
        mailbox.stats = Some(stats);
        mailbox
    }

    /// The message counts of this mailbox, once known.
    pub fn stats(&self) -> (stats: Option<&MailboxStats>)
        ensures
            match stats {
                Some(s) => self@.stats == Some(s@),
                None => self@.stats is None,
            },
    {
        self.stats.as_ref()
    }

    /// Whether the mailbox holds messages and can be selected.
    pub fn selectable(&self) -> (selectable: &bool)
        ensures
            *selectable == self@.selectable,
    {
        &self.selectable
    }

    /// The unique id of this mailbox: its full hierarchical path.
    pub fn id(&self) -> (id: &str)
        ensures
            id@ == self@.id,
    {
        self.id.as_str()
    }

    /// The name of the mailbox: the last segment of its path.
    pub fn name(&self) -> (name: &str)
        ensures
            name@ == self@.name,
    {
        self.name.as_str()
    }

    pub fn set_stats(&mut self, stats: MailboxStats)
        ensures
            final(self)@ == (MailboxView { stats: Some(stats@), ..old(self)@ }),
    {
        self.stats = Some(stats);
    }

    /// The mailbox that an entry of a listing stands for, its counts unknown.
    pub fn from_entry(entry: &NameEntry) -> (mailbox: Self)
        ensures
            mailbox@ == mailbox_of(entry@),
    {
        let name = match &entry.delimiter {
            Some(delimiter) => {
                let mut parts = split_text(entry.name.as_str(), delimiter.as_str());
                match parts.pop() {
                    Some(last) => last,
                    None => entry.name.clone(),
                }
            },
            None => entry.name.clone(),
        };
        Mailbox { stats: None, selectable: entry.selectable, id: entry.name.clone(), name }
    }
}

/// What a [`NameEntry`] holds.
pub struct EntryView {
    pub name: Seq<char>,
    pub delimiter: Option<Seq<char>>,
    pub selectable: bool,
}

/// One entry of a flat mailbox listing: the full name, the delimiter of its
/// hierarchy if it has one, and whether the mailbox can be selected.
#[derive(Debug)]
pub struct NameEntry {
    name: String,
    delimiter: Option<String>,
    selectable: bool,
}

impl View for NameEntry {
    type V = EntryView;

    closed spec fn view(&self) -> EntryView {
        EntryView {
            name: self.name@,
            delimiter: match self.delimiter {
                Some(delimiter) => Some(delimiter@),
                None => None,
            },
            selectable: self.selectable,
        }
    }
}

impl NameEntry {
    pub fn new(name: &str, delimiter: Option<&str>, selectable: bool) -> (entry: Self)
        ensures
            entry@ == (EntryView {
                name: name@,
                delimiter: match delimiter {
                    Some(d) => Some(d@),
                    None => None,
                },
                selectable,
            }),
    {
        let delimiter = match delimiter {
            Some(d) => Some(d.to_owned()),
            None => None,
        };
        NameEntry { name: name.to_owned(), delimiter, selectable }
    }

    pub fn name(&self) -> (name: &str)
        ensures
            name@ == self@.name,
    {
        self.name.as_str()
    }

    pub fn delimiter(&self) -> (delimiter: Option<&str>)
        ensures
            match delimiter {
                Some(d) => self@.delimiter == Some(d@),
                None => self@.delimiter is None,
            },
    {
        match &self.delimiter {
            Some(d) => Some(d.as_str()),
            None => None,
        }
    }

    pub fn selectable(&self) -> (selectable: bool)
        ensures
            selectable == self@.selectable,
    {
        self.selectable
    }
}

/// The mailbox that an entry stands for: its id is the full name, its name
/// the last piece of the full name.
pub open spec fn mailbox_of(entry: EntryView) -> MailboxView {
    MailboxView {
        stats: None,
        selectable: entry.selectable,
        id: entry.name,
        name: match entry.delimiter {
            Some(delimiter) => split(entry.name, delimiter).last(),
            None => entry.name,
        },
    }
}

/// Finds the mailbox with a given id, whatever the case of its letters.
pub struct MailboxFinder(String);

impl View for MailboxFinder {
    type V = Seq<char>;

    /// The id that is looked for, in lowercase.
    closed spec fn view(&self) -> Seq<char> {
        self.0@
    }
}

impl Find<Mailbox> for MailboxFinder {
    open spec fn matches(&self, item: MailboxView) -> bool {
        lowercase(item.id) == self@
    }

    fn find(&self, item: &Mailbox) -> (found: bool) {
        item.id().to_lowercase() == self.0
    }
}

impl MailboxFinder {
    pub fn with_id(id: &str) -> (finder: Self)
        ensures
            finder@ == lowercase(id@),
    {
        MailboxFinder(id.to_lowercase())
    }
}

/// The mailboxes whose id is `id` in lowercase.
pub open spec fn has_id(lower_id: Seq<char>) -> spec_fn(MailboxView) -> bool {
    |mailbox: MailboxView| lowercase(mailbox.id) == lower_id
}

/// The views of a sequence of entries.
pub open spec fn entry_views(entries: Seq<NameEntry>) -> Seq<EntryView> {
    Seq::new(entries.len(), |i: int| entries[i]@)
}

/// The first entry whose name is exactly `id`.
pub open spec fn first_named(entries: Seq<EntryView>, id: Seq<char>) -> Option<EntryView>
    decreases entries.len(),
{
    if entries.len() == 0 {
        None
    } else if entries[0].name == id {
        Some(entries[0])
    } else {
        first_named(entries.drop_first(), id)
    }
}

/// A branch without children for the mailbox of `entry`.
pub open spec fn entry_branch(entry: EntryView) -> Tree<MailboxView> {
    Tree::Branch { data: mailbox_of(entry), children: Seq::empty() }
}

/// `tree` after the path `parts[index..]` has been laid below it.
///
/// At each depth the id is the path so far. Where the tree holds a mailbox
/// with that id, whatever the case of its letters, the rest of the path goes
/// below it. Where it holds none and the listing has an entry of exactly that
/// name, the entry becomes a new last child and the rest goes below that.
/// Where the listing has none either, the folder is not made up: the rest of
/// the path goes below the same tree.
pub open spec fn with_path(
    entries: Seq<EntryView>,
    tree: Tree<MailboxView>,
    delimiter: Seq<char>,
    parts: Seq<Seq<char>>,
    index: int,
) -> Tree<MailboxView>
    decreases parts.len() - index,
{
    if index < 0 || index >= parts.len() {
        tree
    } else {
        let id = join(parts.take(index + 1), delimiter);
        let wanted = has_id(lowercase(id));
        match tree.first_match(wanted) {
            Some(found) => tree.replace_first(
                wanted,
                with_path(entries, found, delimiter, parts, index + 1),
            ),
            None => match first_named(entries, id) {
                Some(entry) => tree.with_child(
                    with_path(entries, entry_branch(entry), delimiter, parts, index + 1),
                ),
                None => with_path(entries, tree, delimiter, parts, index + 1),
            },
        }
    }
}

/// `tree` after one entry of the listing has been added to it.
pub open spec fn with_entry(entries: Seq<EntryView>, tree: Tree<MailboxView>, entry: EntryView) -> Tree<
    MailboxView,
> {
    match entry.delimiter {
        Some(delimiter) => with_path(entries, tree, delimiter, split(entry.name, delimiter), 0),
        None => tree.with_child(entry_branch(entry)),
    }
}

/// `tree` after the first `count` entries of the listing have been added to it, in order.
pub open spec fn with_entries(entries: Seq<EntryView>, tree: Tree<MailboxView>, count: int) -> Tree<
    MailboxView,
>
    decreases count,
{
    if count <= 0 {
        tree
    } else {
        with_entry(entries, with_entries(entries, tree, count - 1), entries[count - 1])
    }
}

/// The tree that a flat listing stands for.
pub open spec fn mailbox_tree(entries: Seq<EntryView>) -> Tree<MailboxView> {
    with_entries(entries, Tree::Root(Seq::empty()), entries.len() as int).normalized()
}

fn find_entry<'a>(names: &'a Vec<NameEntry>, id: &String) -> (found: Option<&'a NameEntry>)
    ensures
        match found {
            Some(entry) => first_named(entry_views(names@), id@) == Some(entry@),
            None => first_named(entry_views(names@), id@) is None,
        },
{
    let mut i: usize = 0;
    assert(entry_views(names@).skip(0) =~= entry_views(names@));
    while i < names.len()
        invariant
            0 <= i <= names.len(),
            first_named(entry_views(names@), id@) == first_named(
                entry_views(names@).skip(i as int),
                id@,
            ),
        decreases names.len() - i,
    {
        let ghost rest = entry_views(names@).skip(i as int);
        assert(rest[0] == names@[i as int]@);
        assert(rest.drop_first() =~= entry_views(names@).skip(i + 1));
        if names[i].name == *id {
            return Some(&names[i]);
        }
        i += 1;
    }
    None
}

fn add_children(
    names: &Vec<NameEntry>,
    node: &mut Node<Mailbox>,
    delimiter: &str,
    parts: &Vec<String>,
    index: usize,
)
    ensures
        final(node)@ == with_path(
            entry_views(names@),
            old(node)@,
            delimiter@,
            texts(parts@),
            index as int,
        ),
    decreases parts.len() - index,
{
    if index < parts.len() {
        let id = join_text(parts, index + 1, delimiter);
        let finder = MailboxFinder::with_id(id.as_str());
        assert(pred_of::<Mailbox, MailboxFinder>(&finder) =~= has_id(lowercase(id@)));
        match node.find_mut(&finder) {
            Some(child) => add_children(names, child, delimiter, parts, index + 1),
            None => {
                if let Some(found) = find_entry(names, &id) {
                    let mut branch = Node::empty_branch(Mailbox::from_entry(found));
                    add_children(names, &mut branch, delimiter, parts, index + 1);
                    node.insert(branch);
                } else {
                    add_children(names, node, delimiter, parts, index + 1);
                }
            },
        }
    }
}

/// Builds the tree of mailboxes that a flat listing stands for.
pub fn build_mailbox_tree(names: Vec<NameEntry>) -> (tree: Node<Mailbox>)
    ensures
        tree@ == mailbox_tree(entry_views(names@)),
{
    let mut root: Node<Mailbox> = Node::empty_root();
    let mut i: usize = 0;
    while i < names.len()
        invariant
            0 <= i <= names.len(),
            root@ == with_entries(entry_views(names@), Tree::Root(Seq::empty()), i as int),
        decreases names.len() - i,
    {
        let entry = &names[i];
        assert(entry_views(names@)[i as int] == entry@);
        match entry.delimiter() {
            Some(delimiter) => {
                let parts = split_text(entry.name(), delimiter);
                add_children(&names, &mut root, delimiter, &parts, 0);
            },
            None => {
                root.insert(Node::empty_branch(Mailbox::from_entry(entry)));
            },
        }
        i += 1;
    }
    root.create_leaves()
}

} // verus!
