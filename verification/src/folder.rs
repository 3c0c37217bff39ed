//! Mailboxes that hold their children, and the list of all mailboxes of an
//! account as a tree of folders.

use crate::attachment::opt_text;
use crate::mailbox::{stats_text, EntryView, NameEntry, StatsView};
use crate::pairs::{lemma_position_extends, position, put, Pairs};
use crate::hierarchy::{lemma_contains_add, lemma_path_step, next_below};
use crate::text::{
    begins_with, decimal_text, join, lemma_join_split, lemma_split_path, same_text, split, split_text,
    texts,
};
use vstd::prelude::*;
use vstd::string::StringExecFns;

verus! {

/// The number of unseen messages and of all messages in a mailbox.
#[derive(Debug, Clone, Copy)]
pub struct MessageCounts {
    unseen: usize,
    total: usize,
}

impl View for MessageCounts {
    type V = StatsView;

    closed spec fn view(&self) -> StatsView {
        StatsView { unseen: self.unseen as nat, total: self.total as nat }
    }
}

impl Default for MessageCounts {
    fn default() -> (counts: Self)
        ensures
            counts@ == (StatsView { unseen: 0, total: 0 }),
    {
        MessageCounts { unseen: 0, total: 0 }
    }
}

impl MessageCounts {
    pub fn new(unseen: usize, total: usize) -> (counts: Self)
        ensures
            counts@ == (StatsView { unseen: unseen as nat, total: total as nat }),
    {
        MessageCounts { unseen, total }
    }

    /// The counts that a server gives when a mailbox is selected: how many
    /// messages exist, and how many are unseen if the server says so.
    pub fn from_counts(exists: u32, unseen: Option<u32>) -> (counts: Self)
        ensures
            counts@ == (StatsView {
                unseen: match unseen {
                    Some(unseen) => unseen as nat,
                    None => 0,
                },
                total: exists as nat,
            }),
    {
        let unseen: u32 = match unseen {
            Some(unseen) => unseen,
            None => 0,
        };
        MessageCounts { unseen: unseen as usize, total: exists as usize }
    }

    /// The number of messages in this mailbox that have not been read.
    pub fn unseen(&self) -> (unseen: &usize)
        ensures
            *unseen == self@.unseen,
    {
        &self.unseen
    }

    /// The number of messages in this mailbox.
    pub fn total(&self) -> (total: &usize)
        ensures
            *total == self@.total,
    {
        &self.total
    }

    /// The counts as they are displayed.
    pub fn to_text(&self) -> (text: String)
        ensures
            text@ == stats_text(self@),
    {
        let mut text = "Total messages: ".to_owned();
        text.append(decimal_text(self.total as u64).as_str());
        text.append(" | Unseen messages: ");
        text.append(decimal_text(self.unseen as u64).as_str());
        text
    }
}

/// The view of optional counts.
pub open spec fn opt_counts(counts: Option<MessageCounts>) -> Option<StatsView> {
    match counts {
        Some(counts) => Some(counts@),
        None => None,
    }
}

/// The mathematical shape of a [`MailBox`].
pub struct MailBoxView {
    pub counts: Option<StatsView>,
    pub delimiter: Option<Seq<char>>,
    pub children: Seq<MailBoxView>,
    pub selectable: bool,
    pub id: Seq<char>,
    pub name: Seq<char>,
}

/// A mailbox with the mailboxes below it.
#[derive(Debug)]
pub struct MailBox {
    counts: Option<MessageCounts>,
    delimiter: Option<String>,
    children: Vec<MailBox>,
    selectable: bool,
    id: String,
    name: String,
}

impl View for MailBox {
    type V = MailBoxView;

    closed spec fn view(&self) -> MailBoxView
        decreases self, 0nat,
    {
        MailBoxView {
            counts: opt_counts(self.counts),
            delimiter: opt_text(self.delimiter),
            children: box_views(self.children@),
            selectable: self.selectable,
            id: self.id@,
            name: self.name@,
        }
    }
}

/// The shapes of a sequence of mailboxes.
pub open spec fn box_views(boxes: Seq<MailBox>) -> Seq<MailBoxView>
    decreases boxes, 1nat,
{
    Seq::new(
        boxes.len(),
        |i: int|
            if 0 <= i < boxes.len() {
                boxes[i]@
            } else {
                arbitrary()
            },
    )
}

impl PartialEq for MailBox {
    /// Two mailboxes are the same where their ids are.
    fn eq(&self, other: &Self) -> (same: bool) {
        self.id == other.id
    }
}

impl vstd::std_specs::cmp::PartialEqSpecImpl for MailBox {
    open spec fn obeys_eq_spec() -> bool {
        true
    }

    open spec fn eq_spec(&self, other: &Self) -> bool {
        self@.id == other@.id
    }
}

impl Clone for MailBox {
    fn clone(&self) -> (copy: Self)
        ensures
            copy@ == self@,
        decreases self,
    {
        let mut children: Vec<MailBox> = Vec::new();
        let mut i: usize = 0;
        while i < self.children.len()
            invariant
                0 <= i <= self.children.len(),
                children@.len() == i,
                forall|j: int| 0 <= j < i ==> (#[trigger] children@[j])@ == self.children@[j]@,
            decreases self.children.len() - i,
        {
            children.push(self.children[i].clone());
            i += 1;
        }
        assert(box_views(children@) =~= box_views(self.children@));
        MailBox {
            counts: self.counts,
            delimiter: self.delimiter.clone(),
            children,
            selectable: self.selectable,
            id: self.id.clone(),
            name: self.name.clone(),
        }
    }
}

impl Default for MailBox {
    /// A selectable mailbox without a name, without children and without messages.
    fn default() -> (mailbox: Self)
        ensures
            mailbox@ == (MailBoxView {
                counts: Some(StatsView { unseen: 0, total: 0 }),
                delimiter: None,
                children: Seq::empty(),
                selectable: true,
                id: Seq::empty(),
                name: Seq::empty(),
            }),
    {
        let mailbox = MailBox {
            children: Vec::new(),
            counts: Some(MessageCounts::default()),
            delimiter: None,
            id: String::new(),
            name: String::new(),
            selectable: true,
        };
        assert(mailbox@.children =~= Seq::<MailBoxView>::empty());
        mailbox
    }
}

/// The mailbox that an entry of a listing stands for: its name is the last
/// segment of its id, which is split on its delimiter, or on a dot where it
/// has none.
pub open spec fn listed_box(entry: EntryView) -> MailBoxView {
    MailBoxView {
        counts: None,
        delimiter: entry.delimiter,
        children: Seq::empty(),
        selectable: entry.selectable,
        id: entry.name,
        name: match entry.delimiter {
            Some(d) => split(entry.name, d).last(),
            None => split(entry.name, "."@).last(),
        },
    }
}

/// How far a mailbox is indented when it is displayed: by the number of
/// delimiters in its id.
pub open spec fn indents_of(mailbox: MailBoxView) -> nat {
    match mailbox.delimiter {
        Some(d) => (split(mailbox.id, d).len() - 1) as nat,
        None => 0,
    }
}

/// The indentation in front of a mailbox: blanks and then a tick.
pub open spec fn indent_text(indents: nat) -> Seq<char>
    decreases indents,
{
    if indents == 0 {
        Seq::empty()
    } else if indents == 1 {
        "|--"@
    } else {
        "   "@ + indent_text((indents - 1) as nat)
    }
}

/// A mailbox as it is displayed: its indentation, its name, its counts if
/// they are known, and each of its children on a line of its own.
pub open spec fn box_text(mailbox: MailBoxView) -> Seq<char>
    decreases mailbox, 0nat,
{
    indent_text(indents_of(mailbox)) + mailbox.name + (match mailbox.counts {
        Some(counts) => ": "@ + stats_text(counts),
        None => Seq::empty(),
    }) + lines_text(mailbox.children, mailbox.children.len() as int)
}

/// The first `count` of `boxes` as they are displayed, each after a line break.
pub open spec fn lines_text(boxes: Seq<MailBoxView>, count: int) -> Seq<char>
    decreases boxes, count,
{
    if count <= 0 || count > boxes.len() {
        Seq::empty()
    } else {
        lines_text(boxes, count - 1) + "\r\n"@ + box_text(boxes[count - 1])
    }
}

/// The first box of `boxes[from..]` with the id `id`.
pub open spec fn first_with_id(boxes: Seq<MailBoxView>, id: Seq<char>, from: int) -> Option<
    MailBoxView,
>
    decreases boxes.len() - from,
{
    if from < 0 || from >= boxes.len() {
        None
    } else if boxes[from].id == id {
        Some(boxes[from])
    } else {
        first_with_id(boxes, id, from + 1)
    }
}

/// The box with the id `id` in a tree of boxes: the first of the boxes
/// themselves that has it; failing that, what the first of them finds below it.
pub open spec fn find_box(boxes: Seq<MailBoxView>, id: Seq<char>) -> Option<MailBoxView>
    decreases boxes, boxes.len() + 1,
{
    match first_with_id(boxes, id, 0) {
        Some(found) => Some(found),
        None => find_below(boxes, id, 0),
    }
}

/// What the first of `boxes[from..]` finds below it.
pub open spec fn find_below(boxes: Seq<MailBoxView>, id: Seq<char>, from: int) -> Option<MailBoxView>
    decreases boxes, boxes.len() - from,
{
    if from < 0 || from >= boxes.len() {
        None
    } else {
        match find_box(boxes[from].children, id) {
            Some(found) => Some(found),
            None => find_below(boxes, id, from + 1),
        }
    }
}

/// The first place at or after `from` at which a box with the id `id` stands.
pub open spec fn place_with_id(boxes: Seq<MailBoxView>, id: Seq<char>, from: int) -> Option<int>
    decreases boxes.len() - from,
{
    if from < 0 || from >= boxes.len() {
        None
    } else if boxes[from].id == id {
        Some(from)
    } else {
        place_with_id(boxes, id, from + 1)
    }
}

/// The first place at or after `from` of a box that finds the id `id` below it.
pub open spec fn place_below(boxes: Seq<MailBoxView>, id: Seq<char>, from: int) -> Option<int>
    decreases boxes.len() - from,
{
    if from < 0 || from >= boxes.len() {
        None
    } else if find_box(boxes[from].children, id) is Some {
        Some(from)
    } else {
        place_below(boxes, id, from + 1)
    }
}

/// The tree of boxes in which the box that is found for the id `id` is
/// replaced by `with`; the tree itself where none is found.
pub open spec fn replaced_box(boxes: Seq<MailBoxView>, id: Seq<char>, with: MailBoxView) -> Seq<
    MailBoxView,
>
    decreases boxes,
{
    match place_with_id(boxes, id, 0) {
        Some(at) => boxes.update(at, with),
        None => match place_below(boxes, id, 0) {
            Some(at) => if 0 <= at < boxes.len() {
                boxes.update(
                    at,
                    MailBoxView {
                        children: replaced_box(boxes[at].children, id, with),
                        ..boxes[at]
                    },
                )
            } else {
                boxes
            },
            None => boxes,
        },
    }
}

/// The first box with an id is the box at the first place of that id.
pub proof fn lemma_place_with_id(boxes: Seq<MailBoxView>, id: Seq<char>, from: int)
    ensures
        match place_with_id(boxes, id, from) {
            Some(at) => from <= at < boxes.len() && boxes[at].id == id && first_with_id(
                boxes,
                id,
                from,
            ) == Some(boxes[at]),
            None => first_with_id(boxes, id, from) is None && (0 <= from ==> forall|j: int|
                from <= j < boxes.len() ==> (#[trigger] boxes[j]).id != id),
        },
    decreases boxes.len() - from,
{
    if !(from < 0 || from >= boxes.len()) && boxes[from].id != id {
        lemma_place_with_id(boxes, id, from + 1);
    }
}

/// What the first box finds below it is what is found below the first place.
pub proof fn lemma_place_below(boxes: Seq<MailBoxView>, id: Seq<char>, from: int)
    ensures
        match place_below(boxes, id, from) {
            Some(at) => from <= at < boxes.len() && find_below(boxes, id, from) == find_box(
                boxes[at].children,
                id,
            ) && find_box(boxes[at].children, id) is Some,
            None => find_below(boxes, id, from) is None,
        },
    decreases boxes.len() - from,
{
    if !(from < 0 || from >= boxes.len()) && !(find_box(boxes[from].children, id) is Some) {
        lemma_place_below(boxes, id, from + 1);
    }
}

impl MailBox {
    pub fn new(
        counts: Option<MessageCounts>,
        delimiter: Option<String>,
        children: Vec<MailBox>,
        selectable: bool,
        id: &str,
        name: &str,
    ) -> (mailbox: Self)
        ensures
            mailbox@ == (MailBoxView {
                counts: opt_counts(counts),
                delimiter: opt_text(delimiter),
                children: box_views(children@),
                selectable,
                id: id@,
                name: name@,
            }),
    {
        Self { counts, delimiter, children, selectable, id: id.to_owned(), name: name.to_owned() }
    }

    /// The mailbox that an entry of a listing stands for, without children
    /// and with its counts unknown.
    pub fn from_entry(entry: &NameEntry) -> (mailbox: Self)
        ensures
            mailbox@ == listed_box(entry@),
    {
        let delimiter = match entry.delimiter() {
            Some(delimiter) => Some(delimiter.to_owned()),
            None => None,
        };
        let mut parts = match entry.delimiter() {
            Some(delimiter) => split_text(entry.name(), delimiter),
            None => split_text(entry.name(), "."),
        };
        let name = match parts.pop() {
            Some(last) => last,
            None => "Unknown".to_owned(),
        };
        let mailbox = MailBox {
            delimiter,
            id: entry.name().to_owned(),
            selectable: entry.selectable(),
            name,
            counts: None,
            children: Vec::new(),
        };
        assert(mailbox@.children =~= Seq::<MailBoxView>::empty());
        mailbox
    }

    /// The message counts of this mailbox, once known.
    pub fn counts(&self) -> (counts: Option<&MessageCounts>)
        ensures
            match counts {
                Some(c) => self@.counts == Some(c@),
                None => self@.counts is None,
            },
    {
        self.counts.as_ref()
    }

    pub fn create_counts(&mut self, message_counts: MessageCounts)
        ensures
            final(self)@ == (MailBoxView { counts: Some(message_counts@), ..old(self)@ }),
    {
        self.counts = Some(message_counts);
    }

    /// Whether the mailbox holds messages and can be selected.
    pub fn selectable(&self) -> (selectable: &bool)
        ensures
            *selectable == self@.selectable,
    {
        &self.selectable
    }

    /// The delimiter that marks the hierarchy in the id.
    pub fn delimiter(&self) -> (delimiter: Option<&str>)
        ensures
            match delimiter {
                Some(d) => self@.delimiter == Some(d@),
                None => self@.delimiter is None,
            },
    {
        match &self.delimiter {
            Some(delimiter) => Some(delimiter.as_str()),
            None => None,
        }
    }

    pub fn children(&self) -> (children: &Vec<MailBox>)
        ensures
            box_views(children@) == self@.children,
    {
        &self.children
    }

    pub fn children_mut(&mut self) -> (children: &mut Vec<MailBox>)
        ensures
            box_views(children@) == old(self)@.children,
            final(self)@ == (MailBoxView { children: box_views(final(children)@), ..old(self)@ }),
    {
        &mut self.children
    }

    /// The unique id of this mailbox.
    pub fn id(&self) -> (id: &str)
        ensures
            id@ == self@.id,
    {
        self.id.as_str()
    }

    /// The segments of the id, where the mailbox has a delimiter.
    pub fn id_delimited(&self) -> (segments: Option<Vec<String>>)
        ensures
            match segments {
                Some(s) => self@.delimiter is Some && texts(s@) == split(
                    self@.id,
                    self@.delimiter->0,
                ),
                None => self@.delimiter is None,
            },
    {
        match &self.delimiter {
            Some(delimiter) => Some(split_text(self.id.as_str(), delimiter.as_str())),
            None => None,
        }
    }

    /// The name of the mailbox.
    pub fn name(&self) -> (name: &str)
        ensures
            name@ == self@.name,
    {
        self.name.as_str()
    }

    /// The mailbox as it is displayed, with the mailboxes below it.
    pub fn to_text(&self) -> (text: String)
        ensures
            text@ == box_text(self@),
        decreases self,
    {
        let indents = match self.id_delimited() {
            Some(delimited) => delimited.len().saturating_sub(1),
            None => 0,
        };
        let mut text = String::new();
        let mut i: usize = 0;
        while i < indents
            invariant
                0 <= i <= indents,
                text@ + indent_text((indents - i) as nat) == indent_text(indents as nat),
            decreases indents - i,
        {
            let ghost before = text@;
            if i == indents - 1 {
                text.append("|--");
                assert(text@ + indent_text(0) =~= before + indent_text(1));
            } else {
                text.append("   ");
                assert(text@ + indent_text((indents - i - 1) as nat) =~= before + indent_text(
                    (indents - i) as nat,
                ));
            }
            i += 1;
        }
        assert(text@ =~= indent_text(indents as nat));
        text.append(self.name.as_str());
        if let Some(counts) = &self.counts {
            text.append(": ");
            text.append(counts.to_text().as_str());
        }
        append_lines(&mut text, &self.children);
        assert(text@ =~= box_text(self@));
        text
    }
}

/// Appends each of `boxes` as it is displayed, each after a line break.
fn append_lines(text: &mut String, boxes: &Vec<MailBox>)
    ensures
        final(text)@ == old(text)@ + lines_text(box_views(boxes@), boxes@.len() as int),
    decreases boxes@,
{
    let mut i: usize = 0;
    assert(text@ =~= old(text)@ + lines_text(box_views(boxes@), 0));
    while i < boxes.len()
        invariant
            0 <= i <= boxes.len(),
            text@ == old(text)@ + lines_text(box_views(boxes@), i as int),
        decreases boxes.len() - i,
    {
        let ghost before = text@;
        text.append("\r\n");
        text.append(boxes[i].to_text().as_str());
        assert(text@ =~= old(text)@ + lines_text(box_views(boxes@), i + 1));
        i += 1;
    }
}

/// The mathematical shape of a [`MailBoxNode`].
pub struct NodeView {
    pub counts: Option<StatsView>,
    pub delimiter: Option<Seq<char>>,
    pub children: Seq<(Seq<char>, NodeView)>,
    pub selectable: bool,
    pub id: Seq<char>,
    pub name: Seq<char>,
}

/// A mailbox whose children are kept by the last segment of their ids, so
/// that a folder tree can be built out of a flat list of mailboxes. No key
/// stands twice; the children stay in the order in which their keys came.
#[derive(Debug)]
pub struct MailBoxNode {
    counts: Option<MessageCounts>,
    delimiter: Option<String>,
    children: Vec<(String, MailBoxNode)>,
    selectable: bool,
    id: String,
    name: String,
}

impl View for MailBoxNode {
    type V = NodeView;

    closed spec fn view(&self) -> NodeView
        decreases self, 0nat,
    {
        NodeView {
            counts: opt_counts(self.counts),
            delimiter: opt_text(self.delimiter),
            children: node_pairs(self.children@),
            selectable: self.selectable,
            id: self.id@,
            name: self.name@,
        }
    }
}

/// The shapes of keyed nodes.
pub open spec fn node_pairs(pairs: Seq<(String, MailBoxNode)>) -> Pairs<NodeView>
    decreases pairs, 1nat,
{
    Seq::new(
        pairs.len(),
        |i: int|
            if 0 <= i < pairs.len() {
                (pairs[i].0@, pairs[i].1@)
            } else {
                arbitrary()
            },
    )
}

/// The key under which a mailbox is kept among its siblings: the last segment
/// of its id, or its whole id where it has no delimiter.
pub open spec fn key_of(mailbox: MailBoxView) -> Seq<char> {
    match mailbox.delimiter {
        Some(d) => split(mailbox.id, d).last(),
        None => mailbox.id,
    }
}

/// The node that a mailbox stands for, its children keyed.
pub open spec fn node_of(mailbox: MailBoxView) -> NodeView
    decreases mailbox, 0nat,
{
    NodeView {
        counts: mailbox.counts,
        delimiter: mailbox.delimiter,
        children: keyed(mailbox.children, mailbox.children.len() as int),
        selectable: mailbox.selectable,
        id: mailbox.id,
        name: mailbox.name,
    }
}

/// The first `count` of `boxes` as keyed nodes; of two with one key the later stays.
pub open spec fn keyed(boxes: Seq<MailBoxView>, count: int) -> Pairs<NodeView>
    decreases boxes, count,
{
    if count <= 0 || count > boxes.len() {
        Seq::empty()
    } else {
        put(keyed(boxes, count - 1), key_of(boxes[count - 1]), node_of(boxes[count - 1]))
    }
}

/// The mailbox that a node stands for, its children in their order.
pub open spec fn box_of(node: NodeView) -> MailBoxView
    decreases node, 0nat,
{
    MailBoxView {
        counts: node.counts,
        delimiter: node.delimiter,
        children: boxes_of(node.children),
        selectable: node.selectable,
        id: node.id,
        name: node.name,
    }
}

/// The mailboxes that keyed nodes stand for.
pub open spec fn boxes_of(pairs: Pairs<NodeView>) -> Seq<MailBoxView>
    decreases pairs, 1nat,
{
    Seq::new(
        pairs.len(),
        |i: int|
            if 0 <= i < pairs.len() {
                box_of(pairs[i].1)
            } else {
                arbitrary()
            },
    )
}

/// The first place among the first `count` children at which a mailbox with
/// the id `id` stands.
pub open spec fn place_of_id(children: Pairs<NodeView>, id: Seq<char>, count: int) -> Option<int>
    decreases count,
{
    if count <= 0 || count > children.len() {
        None
    } else {
        match place_of_id(children, id, count - 1) {
            Some(at) => Some(at),
            None => if children[count - 1].1.id == id {
                Some(count - 1)
            } else {
                None
            },
        }
    }
}

/// `children` after the path `parts[index..]` of an id was laid into them.
///
/// At each depth the id is the path so far. Where the flat list holds a
/// mailbox with that id, it is looked up among the children by its id, added
/// after them under its last segment where it is not there, and the rest of
/// the path goes below it. Where the flat list holds none, the folder is not
/// made up: the rest of the path goes into the same children.
pub open spec fn with_parts(
    children: Pairs<NodeView>,
    planar: Seq<MailBoxView>,
    delimiter: Seq<char>,
    parts: Seq<Seq<char>>,
    index: int,
) -> Pairs<NodeView>
    decreases parts.len() - index,
{
    if index < 0 || index >= parts.len() {
        children
    } else {
        let path = join(parts.take(index + 1), delimiter);
        match first_with_id(planar, path, 0) {
            Some(found) => {
                let at = place_of_id(children, path, children.len() as int);
                let node = match at {
                    Some(k) => children[k].1,
                    None => node_of(found),
                };
                let below = NodeView {
                    children: with_parts(node.children, planar, delimiter, parts, index + 1),
                    ..node
                };
                match at {
                    Some(k) => children.update(k, (children[k].0, below)),
                    None => children.push((parts[index], below)),
                }
            },
            None => with_parts(children, planar, delimiter, parts, index + 1),
        }
    }
}

/// `folders` after one mailbox of the flat list was added to them: along the
/// path of its id where it has a delimiter, at the top under its id where it
/// has none.
pub open spec fn with_folder(folders: Pairs<NodeView>, planar: Seq<MailBoxView>, folder: MailBoxView) -> Pairs<
    NodeView,
> {
    match folder.delimiter {
        Some(d) => with_parts(folders, planar, d, split(folder.id, d), 0),
        None => put(folders, folder.id, node_of(folder)),
    }
}

/// The folders after the first `count` mailboxes of the flat list were added.
pub open spec fn with_folders(planar: Seq<MailBoxView>, count: int) -> Pairs<NodeView>
    decreases count,
{
    if count <= 0 || count > planar.len() {
        Seq::empty()
    } else {
        with_folder(with_folders(planar, count - 1), planar, planar[count - 1])
    }
}

/// The folder tree that a flat list of mailboxes stands for.
pub open spec fn folder_tree(planar: Seq<MailBoxView>) -> Seq<MailBoxView> {
    boxes_of(with_folders(planar, planar.len() as int))
}

fn find_key(children: &Vec<(String, MailBoxNode)>, key: &str) -> (at: Option<usize>)
    ensures
        match at {
            Some(at) => position(node_pairs(children@), key@, children@.len() as int) == Some(
                at as int,
            ) && at < children@.len(),
            None => position(node_pairs(children@), key@, children@.len() as int) is None,
        },
{
    let mut i: usize = 0;
    while i < children.len()
        invariant
            0 <= i <= children.len(),
            position(node_pairs(children@), key@, i as int) is None,
        decreases children.len() - i,
    {
        assert(node_pairs(children@)[i as int].0 == children@[i as int].0@);
        if same_text(children[i].0.as_str(), key) {
            proof {
                lemma_position_extends(node_pairs(children@), key@, i + 1, children@.len() as int);
            }
            return Some(i);
        }
        i += 1;
    }
    None
}

fn put_node(children: &mut Vec<(String, MailBoxNode)>, key: String, node: MailBoxNode)
    ensures
        node_pairs(final(children)@) == put(node_pairs(old(children)@), key@, node@),
{
    let ghost before = node_pairs(children@);
    match find_key(children, key.as_str()) {
        Some(at) => {
            children.set(at, (key, node));
            assert(node_pairs(children@) =~= before.update(at as int, (key@, node@)));
        },
        None => {
            children.push((key, node));
            assert(node_pairs(children@) =~= before.push((key@, node@)));
        },
    }
}

fn find_listed<'a>(planar: &'a Vec<MailBox>, id: &str) -> (found: Option<&'a MailBox>)
    ensures
        match found {
            Some(b) => first_with_id(box_views(planar@), id@, 0) == Some(b@),
            None => first_with_id(box_views(planar@), id@, 0) is None,
        },
{
    let mut i: usize = 0;
    while i < planar.len()
        invariant
            0 <= i <= planar.len(),
            first_with_id(box_views(planar@), id@, 0) == first_with_id(
                box_views(planar@),
                id@,
                i as int,
            ),
        decreases planar.len() - i,
    {
        if same_text(planar[i].id(), id) {
            return Some(&planar[i]);
        }
        i += 1;
    }
    None
}

/// A first place among some children is the first place among more of them.
proof fn lemma_place_of_id_extends(children: Pairs<NodeView>, id: Seq<char>, count: int, more: int)
    requires
        0 <= count <= more <= children.len(),
        place_of_id(children, id, count) is Some,
    ensures
        place_of_id(children, id, more) == place_of_id(children, id, count),
    decreases more - count,
{
    if more > count {
        lemma_place_of_id_extends(children, id, count, more - 1);
    }
}

fn find_place(children: &Vec<(String, MailBoxNode)>, id: &str) -> (at: Option<usize>)
    ensures
        match at {
            Some(at) => place_of_id(node_pairs(children@), id@, children@.len() as int) == Some(
                at as int,
            ) && at < children@.len(),
            None => place_of_id(node_pairs(children@), id@, children@.len() as int) is None,
        },
{
    let mut i: usize = 0;
    while i < children.len()
        invariant
            0 <= i <= children.len(),
            place_of_id(node_pairs(children@), id@, i as int) is None,
        decreases children.len() - i,
    {
        assert(node_pairs(children@)[i as int].1 == children@[i as int].1@);
        if same_text(children[i].1.id.as_str(), id) {
            proof {
                lemma_place_of_id_extends(node_pairs(children@), id@, i + 1, children@.len() as int);
            }
            return Some(i);
        }
        i += 1;
    }
    None
}

fn add_parts(
    children: &mut Vec<(String, MailBoxNode)>,
    planar: &Vec<MailBox>,
    delimiter: &str,
    parts: &Vec<String>,
    index: usize,
)
    ensures
        node_pairs(final(children)@) == with_parts(
            node_pairs(old(children)@),
            box_views(planar@),
            delimiter@,
            texts(parts@),
            index as int,
        ),
    decreases parts.len() - index,
{
    if index < parts.len() {
        let path = crate::text::join_text(parts, index + 1, delimiter);
        match find_listed(planar, path.as_str()) {
            Some(found) => {
                let ghost before = node_pairs(children@);
                let known = find_place(children, path.as_str());
                let at = match known {
                    Some(k) => k,
                    None => {
                        children.push((parts[index].clone(), MailBoxNode::from_box(found.clone())));
                        assert(node_pairs(children@) =~= before.push(
                            (texts(parts@)[index as int], node_of(found@)),
                        ));
                        children.len() - 1
                    },
                };
                let ghost mid = node_pairs(children@);
                assert(mid[at as int] == (children@[at as int].0@, children@[at as int].1@));
                let entry = &mut children[at];
                add_parts(&mut entry.1.children, planar, delimiter, parts, index + 1);
                assert(node_pairs(children@) =~= mid.update(
                    at as int,
                    (
                        mid[at as int].0,
                        NodeView {
                            children: with_parts(
                                mid[at as int].1.children,
                                box_views(planar@),
                                delimiter@,
                                texts(parts@),
                                index + 1,
                            ),
                            ..mid[at as int].1
                        },
                    ),
                ));
            },
            None => add_parts(children, planar, delimiter, parts, index + 1),
        }
    }
}

impl MailBoxNode {
    pub fn children_mut(&mut self) -> (children: &mut Vec<(String, MailBoxNode)>)
        ensures
            node_pairs(children@) == old(self)@.children,
            final(self)@ == (NodeView { children: node_pairs(final(children)@), ..old(self)@ }),
    {
        &mut self.children
    }

    pub fn id(&self) -> (id: &str)
        ensures
            id@ == self@.id,
    {
        self.id.as_str()
    }

    /// The node that a mailbox stands for, its children keyed by the last
    /// segment of their ids.
    pub fn from_box(mailbox: MailBox) -> (node: Self)
        ensures
            node@ == node_of(mailbox@),
        decreases mailbox,
    {
        let mut rest = mailbox.children;
        let ghost all = rest@;
        let mut children: Vec<(String, MailBoxNode)> = Vec::new();
        assert(node_pairs(children@) =~= keyed(box_views(all), 0));
        while rest.len() > 0
            invariant
                all == mailbox.children@,
                rest@.len() <= all.len(),
                rest@ == all.skip(all.len() - rest@.len()),
                node_pairs(children@) == keyed(box_views(all), all.len() - rest@.len()),
            decreases rest@.len(),
        {
            let ghost done = all.len() - rest@.len();
            let child = rest.remove(0);
            assert(child == all[done]);
            assert(box_views(all)[done] == child@);
            let key = match child.id_delimited() {
                Some(mut delimited) => match delimited.pop() {
                    Some(last) => last,
                    None => child.id.clone(),
                },
                None => child.id.clone(),
            };
            assert(key@ == key_of(child@));
            let node = MailBoxNode::from_box(child);
            put_node(&mut children, key, node);
            assert(rest@ =~= all.skip(all.len() - rest@.len()));
        }
        Self {
            children,
            counts: mailbox.counts,
            delimiter: mailbox.delimiter,
            id: mailbox.id,
            name: mailbox.name,
            selectable: mailbox.selectable,
        }
    }

    /// The mailbox that the node stands for, its children in their order.
    pub fn into_box(self) -> (mailbox: MailBox)
        ensures
            mailbox@ == box_of(self@),
        decreases self,
    {
        let children = into_boxes(self.children);
        MailBox {
            counts: self.counts,
            delimiter: self.delimiter,
            children,
            selectable: self.selectable,
            id: self.id,
            name: self.name,
        }
    }
}

fn into_boxes(nodes: Vec<(String, MailBoxNode)>) -> (boxes: Vec<MailBox>)
    ensures
        box_views(boxes@) == boxes_of(node_pairs(nodes@)),
    decreases nodes@,
{
    let mut rest = nodes;
    let mut boxes: Vec<MailBox> = Vec::new();
    while rest.len() > 0
        invariant
            rest@.len() <= nodes@.len(),
            boxes@.len() + rest@.len() == nodes@.len(),
            rest@ == nodes@.skip(boxes@.len() as int),
            forall|j: int| 0 <= j < boxes@.len() ==> (#[trigger] boxes@[j])@ == box_of(nodes@[j].1@),
        decreases rest@.len(),
    {
        let pair = rest.remove(0);
        assert(pair == nodes@[boxes@.len() as int]);
        boxes.push(pair.1.into_box());
        assert(rest@ =~= nodes@.skip(boxes@.len() as int));
    }
    assert(box_views(boxes@) =~= boxes_of(node_pairs(nodes@)));
    boxes
}

/// All mailboxes of an account, as a tree of folders.
#[derive(Debug)]
pub struct MailBoxList {
    list: Vec<MailBox>,
}

impl View for MailBoxList {
    type V = Seq<MailBoxView>;

    closed spec fn view(&self) -> Seq<MailBoxView> {
        box_views(self.list@)
    }
}

impl Default for MailBoxList {
    /// The tree of no mailboxes.
    fn default() -> (list: Self)
        ensures
            list@ == folder_tree(Seq::empty()),
    {
        Self::new(Vec::new())
    }
}

impl From<Vec<MailBox>> for MailBoxList {
    fn from(list: Vec<MailBox>) -> (tree: Self) {
        Self::new(list)
    }
}

impl vstd::std_specs::convert::FromSpecImpl<Vec<MailBox>> for MailBoxList {
    open spec fn obeys_from_spec() -> bool {
        false
    }

    open spec fn from_spec(list: Vec<MailBox>) -> Self {
        arbitrary()
    }
}

/// A list of mailboxes as it is displayed: a title, and each mailbox with
/// those below it after a line break.
pub open spec fn list_text(boxes: Seq<MailBoxView>) -> Seq<char> {
    "Mailbox tree:"@ + lines_text(boxes, boxes.len() as int)
}

impl MailBoxList {
    /// The folder tree that a flat list of mailboxes stands for.
    pub fn new(list: Vec<MailBox>) -> (tree: Self)
        ensures
            tree@ == folder_tree(box_views(list@)),
    {
        Self { list: Self::build_folder_tree(list) }
    }

    /// Builds a tree of folders out of a flat list of mailboxes. A mailbox
    /// with children must have its children in the list too.
    pub fn build_folder_tree(planar_graph: Vec<MailBox>) -> (tree: Vec<MailBox>)
        ensures
            box_views(tree@) == folder_tree(box_views(planar_graph@)),
    {
        let mut folders: Vec<(String, MailBoxNode)> = Vec::new();
        let mut i: usize = 0;
        assert(node_pairs(folders@) =~= with_folders(box_views(planar_graph@), 0));
        while i < planar_graph.len()
            invariant
                0 <= i <= planar_graph.len(),
                node_pairs(folders@) == with_folders(box_views(planar_graph@), i as int),
            decreases planar_graph.len() - i,
        {
            let folder = &planar_graph[i];
            match folder.delimiter() {
                Some(delimiter) => {
                    let parts = split_text(folder.id(), delimiter);
                    add_parts(&mut folders, &planar_graph, delimiter, &parts, 0);
                },
                None => {
                    put_node(&mut folders, folder.id().to_owned(), MailBoxNode::from_box(folder.clone()));
                },
            }
            i += 1;
        }
        into_boxes(folders)
    }

    pub fn to_vec(self) -> (list: Vec<MailBox>)
        ensures
            box_views(list@) == self@,
    {
        self.list
    }

    pub fn get_vec(&self) -> (list: &Vec<MailBox>)
        ensures
            box_views(list@) == self@,
    {
        &self.list
    }

    pub fn get_vec_mut(&mut self) -> (list: &mut Vec<MailBox>)
        ensures
            box_views(list@) == old(self)@,
            final(self)@ == box_views(final(list)@),
    {
        &mut self.list
    }

    /// The mailbox with the id `box_id` in the tree.
    pub fn get_box(&self, box_id: &str) -> (found: Option<&MailBox>)
        ensures
            match found {
                Some(b) => find_box(self@, box_id@) == Some(b@),
                None => find_box(self@, box_id@) is None,
            },
    {
        Self::find_box_in_list(&self.list, box_id)
    }

    /// The mailbox with the id `box_id` in the tree, to change in place.
    pub fn get_box_mut(&mut self, box_id: &str) -> (found: Option<&mut MailBox>)
        ensures
            match found {
                Some(b) => find_box(old(self)@, box_id@) == Some(b@) && final(self)@
                    == replaced_box(old(self)@, box_id@, final(b)@),
                None => find_box(old(self)@, box_id@) is None && final(self)@ == old(self)@,
            },
    {
        Self::find_box_in_list_mut(&mut self.list, box_id)
    }

    /// The mailbox with the id `box_id` in a tree of mailboxes, to change in
    /// place: the first of `list` that has it; failing that, what the first
    /// of them finds below it.
    pub fn find_box_in_list_mut<'a>(list: &'a mut Vec<MailBox>, box_id: &str) -> (found: Option<
        &'a mut MailBox,
    >)
        ensures
            match found {
                Some(b) => find_box(box_views(old(list)@), box_id@) == Some(b@) && box_views(
                    final(list)@,
                ) == replaced_box(box_views(old(list)@), box_id@, final(b)@),
                None => find_box(box_views(old(list)@), box_id@) is None && box_views(
                    final(list)@,
                ) == box_views(old(list)@),
            },
        decreases old(list)@,
    {
        let mut i: usize = 0;
        while i < list.len()
            invariant
                0 <= i <= list.len(),
                list@ == old(list)@,
                place_with_id(box_views(list@), box_id@, 0) == place_with_id(
                    box_views(list@),
                    box_id@,
                    i as int,
                ),
            decreases list.len() - i,
        {
            if same_text(list[i].id(), box_id) {
                proof {
                    lemma_place_with_id(box_views(list@), box_id@, 0);
                    assert forall|c: MailBox| #[trigger]
                        box_views(list@.update(i as int, c)) == box_views(list@).update(
                            i as int,
                            c@,
                        ) by {
                        assert(box_views(list@.update(i as int, c)) =~= box_views(list@).update(
                            i as int,
                            c@,
                        ));
                    }
                }
                return Some(&mut list[i]);
            }
            i += 1;
        }
        let mut i: usize = 0;
        while i < list.len()
            invariant
                0 <= i <= list.len(),
                list@ == old(list)@,
                place_with_id(box_views(list@), box_id@, 0) is None,
                place_below(box_views(list@), box_id@, 0) == place_below(
                    box_views(list@),
                    box_id@,
                    i as int,
                ),
            decreases list.len() - i,
        {
            if Self::find_box_in_list(&list[i].children, box_id).is_some() {
                proof {
                    lemma_place_with_id(box_views(list@), box_id@, 0);
                    lemma_place_below(box_views(list@), box_id@, 0);
                    assert forall|c: MailBox| #[trigger]
                        box_views(list@.update(i as int, c)) == box_views(list@).update(
                            i as int,
                            c@,
                        ) by {
                        assert(box_views(list@.update(i as int, c)) =~= box_views(list@).update(
                            i as int,
                            c@,
                        ));
                    }
                }
                return Self::find_box_in_list_mut(&mut list[i].children, box_id);
            }
            i += 1;
        }
        proof {
            lemma_place_with_id(box_views(list@), box_id@, 0);
            lemma_place_below(box_views(list@), box_id@, 0);
        }
        None
    }

    /// The mailbox with the id `box_id` in a tree of mailboxes: the first of
    /// `list` that has it; failing that, what the first of them finds below it.
    pub fn find_box_in_list<'a>(list: &'a Vec<MailBox>, box_id: &str) -> (found: Option<&'a MailBox>)
        ensures
            match found {
                Some(b) => find_box(box_views(list@), box_id@) == Some(b@),
                None => find_box(box_views(list@), box_id@) is None,
            },
        decreases list@,
    {
        let mut i: usize = 0;
        while i < list.len()
            invariant
                0 <= i <= list.len(),
                first_with_id(box_views(list@), box_id@, 0) == first_with_id(
                    box_views(list@),
                    box_id@,
                    i as int,
                ),
            decreases list.len() - i,
        {
            if same_text(list[i].id(), box_id) {
                return Some(&list[i]);
            }
            i += 1;
        }
        let mut i: usize = 0;
        while i < list.len()
            invariant
                0 <= i <= list.len(),
                first_with_id(box_views(list@), box_id@, 0) is None,
                find_below(box_views(list@), box_id@, 0) == find_below(
                    box_views(list@),
                    box_id@,
                    i as int,
                ),
            decreases list.len() - i,
        {
            if let Some(found) = Self::find_box_in_list(&list[i].children, box_id) {
                return Some(found);
            }
            i += 1;
        }
        None
    }

    /// The tree as it is displayed.
    pub fn to_text(&self) -> (text: String)
        ensures
            text@ == list_text(self@),
    {
        let mut text = "Mailbox tree:".to_owned();
        append_lines(&mut text, &self.list);
        text
    }
}

/// Whether an id is the id of a mailbox of the flat list.
pub open spec fn is_listed(id: Seq<char>, planar: Seq<MailBoxView>) -> bool {
    exists|j: int| 0 <= j < planar.len() && (#[trigger] planar[j]).id == id
}

/// Whether a list of mailboxes is flat: each has the delimiter `d`, and none
/// has children yet.
pub open spec fn flat(planar: Seq<MailBoxView>, d: Seq<char>) -> bool {
    forall|j: int|
        0 <= j < planar.len() ==> (#[trigger] planar[j]).delimiter == Some(d)
            && planar[j].children.len() == 0
}

/// The ids of a mailbox and of the mailboxes below it, in pre-order.
pub open spec fn box_ids(mailbox: MailBoxView) -> Seq<Seq<char>>
    decreases mailbox, 0nat,
{
    seq![mailbox.id] + tree_ids(mailbox.children)
}

/// The ids of some mailboxes and of the mailboxes below them, in pre-order.
pub open spec fn tree_ids(boxes: Seq<MailBoxView>) -> Seq<Seq<char>>
    decreases boxes, 1nat,
{
    if boxes.len() == 0 {
        Seq::empty()
    } else {
        tree_ids(boxes.drop_last()) + box_ids(boxes.last())
    }
}

/// Whether, below a mailbox, every mailbox has an id that begins with the id
/// of its parent and the delimiter.
pub open spec fn box_nested(mailbox: MailBoxView, d: Seq<char>) -> bool
    decreases mailbox, 0nat,
{
    boxes_below(mailbox.children, Some(mailbox.id), d)
}

/// Whether some mailboxes may stand below a parent with the given id, and
/// hold below them only mailboxes that may stand there. Below no parent,
/// every mailbox may stand.
pub open spec fn boxes_below(boxes: Seq<MailBoxView>, parent: Option<Seq<char>>, d: Seq<char>) -> bool
    decreases boxes, 1nat,
{
    forall|i: int|
        0 <= i < boxes.len() ==> {
            &&& match parent {
                Some(p) => begins_with((#[trigger] boxes[i]).id, p + d),
                None => true,
            }
            &&& box_nested(boxes[i], d)
        }
}

/// An id is among the ids of some mailboxes where it is among the ids of one of them.
pub proof fn lemma_tree_ids(boxes: Seq<MailBoxView>, x: Seq<char>)
    ensures
        tree_ids(boxes).contains(x) <==> exists|i: int|
            0 <= i < boxes.len() && box_ids(#[trigger] boxes[i]).contains(x),
    decreases boxes.len(),
{
    if boxes.len() > 0 {
        let front = boxes.drop_last();
        lemma_tree_ids(front, x);
        lemma_contains_add(tree_ids(front), box_ids(boxes.last()), x);
        if tree_ids(boxes).contains(x) {
            if tree_ids(front).contains(x) {
                let i = choose|i: int| 0 <= i < front.len() && box_ids(#[trigger] front[i]).contains(x);
                assert(front[i] == boxes[i]);
            } else {
                assert(box_ids(boxes[boxes.len() - 1]).contains(x));
            }
        }
        if exists|i: int| 0 <= i < boxes.len() && box_ids(#[trigger] boxes[i]).contains(x) {
            let i = choose|i: int| 0 <= i < boxes.len() && box_ids(#[trigger] boxes[i]).contains(x);
            if i < boxes.len() - 1 {
                assert(front[i] == boxes[i]);
            }
        }
    }
}

/// An id is among the ids of a mailbox where it is its id or among the ids below it.
pub proof fn lemma_box_ids(mailbox: MailBoxView, x: Seq<char>)
    ensures
        box_ids(mailbox).contains(x) <==> x == mailbox.id || tree_ids(mailbox.children).contains(x),
{
    lemma_contains_add(seq![mailbox.id], tree_ids(mailbox.children), x);
    assert(seq![mailbox.id][0] == mailbox.id);
}

/// A longer path begins with a shorter path of the same segments and the delimiter.
pub proof fn lemma_prefix_path(parts: Seq<Seq<char>>, d: Seq<char>, shorter: int, longer: int)
    requires
        1 <= shorter < longer <= parts.len(),
    ensures
        begins_with(join(parts.take(longer), d), join(parts.take(shorter), d) + d),
    decreases longer,
{
    let front = join(parts.take(longer - 1), d);
    let prefix = join(parts.take(shorter), d) + d;
    assert(parts.take(longer).drop_last() =~= parts.take(longer - 1));
    assert(join(parts.take(longer), d) == front + d + parts[longer - 1]);
    if shorter == longer - 1 {
        assert((front + d + parts[longer - 1]).subrange(0, prefix.len() as int) =~= prefix);
    } else {
        lemma_prefix_path(parts, d, shorter, longer - 1);
        assert((front + d + parts[longer - 1]).subrange(0, prefix.len() as int) =~= front.subrange(
            0,
            prefix.len() as int,
        ));
    }
}

/// What a place among children says: where it is `Some`, the mailbox there
/// has the id; where it is `None`, none of the children counted has it.
pub proof fn lemma_place_of_id(children: Pairs<NodeView>, id: Seq<char>, count: int)
    requires
        0 <= count <= children.len(),
    ensures
        match place_of_id(children, id, count) {
            Some(at) => 0 <= at < count && children[at].1.id == id,
            None => true,
        },
    decreases count,
{
    if count > 0 {
        lemma_place_of_id(children, id, count - 1);
    }
}

/// Laying the rest of the path of a listed id into children that may stand
/// below their parent gives children that may stand there, that hold the ids
/// they held and the listed id, and no id besides listed ones.
proof fn lemma_with_parts(
    children: Pairs<NodeView>,
    planar: Seq<MailBoxView>,
    d: Seq<char>,
    name: Seq<char>,
    index: int,
    parent: Option<Seq<char>>,
)
    requires
        flat(planar, d),
        is_listed(name, planar),
        0 <= index <= split(name, d).len(),
        boxes_below(boxes_of(children), parent, d),
        parent matches Some(p) ==> exists|j: int|
            1 <= j <= index && p == #[trigger] join(split(name, d).take(j), d),
    ensures
        boxes_below(boxes_of(with_parts(children, planar, d, split(name, d), index)), parent, d),
        forall|x: Seq<char>|
            tree_ids(boxes_of(with_parts(children, planar, d, split(name, d), index))).contains(x)
                ==> tree_ids(boxes_of(children)).contains(x) || is_listed(x, planar),
        forall|x: Seq<char>|
            tree_ids(boxes_of(children)).contains(x) ==> tree_ids(
                boxes_of(with_parts(children, planar, d, split(name, d), index)),
            ).contains(x),
        index < split(name, d).len() ==> tree_ids(
            boxes_of(with_parts(children, planar, d, split(name, d), index)),
        ).contains(name),
    decreases split(name, d).len() - index,
{
    let parts = split(name, d);
    if index < parts.len() {
        let path = join(parts.take(index + 1), d);
        let result = with_parts(children, planar, d, parts, index);
        let last = index == parts.len() - 1;
        if last {
            lemma_join_split(name, d);
            assert(parts.take(index + 1) =~= parts);
            assert(path == name);
        }
        lemma_place_with_id(planar, path, 0);
        match first_with_id(planar, path, 0) {
            Some(found) => {
                let listed_at = place_with_id(planar, path, 0)->0;
                assert(planar[listed_at].id == path);
                assert(is_listed(path, planar));
                assert(found.children.len() == 0);
                let at = place_of_id(children, path, children.len() as int);
                lemma_place_of_id(children, path, children.len() as int);
                let node = match at {
                    Some(k) => children[k].1,
                    None => node_of(found),
                };
                assert(node.id == path);
                let old_boxes = boxes_of(children);
                if at is Some {
                    let k = at->0;
                    assert(old_boxes[k] == box_of(children[k].1));
                    assert(box_nested(old_boxes[k], d));
                } else {
                    assert(node.children.len() == 0);
                    assert(boxes_of(node.children) =~= Seq::<MailBoxView>::empty());
                }
                assert(boxes_below(boxes_of(node.children), Some(path), d));
                lemma_with_parts(node.children, planar, d, name, index + 1, Some(path));
                let lower = with_parts(node.children, planar, d, parts, index + 1);
                let below = NodeView { children: lower, ..node };
                let new_box = box_of(below);
                let new_boxes = boxes_of(result);
                let place = if at is Some {
                    at->0
                } else {
                    children.len() as int
                };
                if at is Some {
                    assert(new_boxes =~= old_boxes.update(place, new_box));
                } else {
                    assert(new_boxes =~= old_boxes.push(new_box));
                }
                assert(new_boxes[place] == new_box);
                if parent is Some {
                    let j = choose|j: int|
                        1 <= j <= index && parent->0 == #[trigger] join(split(name, d).take(j), d);
                    lemma_prefix_path(parts, d, j, index + 1);
                }
                assert(box_nested(new_box, d));
                assert forall|i: int| 0 <= i < new_boxes.len() implies {
                    &&& match parent {
                        Some(p) => begins_with((#[trigger] new_boxes[i]).id, p + d),
                        None => true,
                    }
                    &&& box_nested(new_boxes[i], d)
                } by {
                    if i != place {
                        assert(new_boxes[i] == old_boxes[i]);
                    }
                }
                assert forall|x: Seq<char>| tree_ids(new_boxes).contains(x) implies tree_ids(
                    old_boxes,
                ).contains(x) || is_listed(x, planar) by {
                    lemma_tree_ids(new_boxes, x);
                    lemma_tree_ids(old_boxes, x);
                    let i = choose|i: int|
                        0 <= i < new_boxes.len() && box_ids(#[trigger] new_boxes[i]).contains(x);
                    if i == place {
                        lemma_box_ids(new_box, x);
                        if x != path && !is_listed(x, planar) {
                            assert(tree_ids(boxes_of(node.children)).contains(x));
                            if at is Some {
                                lemma_box_ids(old_boxes[place], x);
                                assert(box_ids(old_boxes[place]).contains(x));
                            } else {
                                assert(tree_ids(boxes_of(node.children)) =~= Seq::<
                                    Seq<char>,
                                >::empty());
                            }
                        }
                    } else {
                        assert(new_boxes[i] == old_boxes[i]);
                        assert(box_ids(old_boxes[i]).contains(x));
                    }
                }
                assert forall|x: Seq<char>| tree_ids(old_boxes).contains(x) implies tree_ids(
                    new_boxes,
                ).contains(x) by {
                    lemma_tree_ids(new_boxes, x);
                    lemma_tree_ids(old_boxes, x);
                    let i = choose|i: int|
                        0 <= i < old_boxes.len() && box_ids(#[trigger] old_boxes[i]).contains(x);
                    if at is Some && i == place {
                        lemma_box_ids(old_boxes[place], x);
                        lemma_box_ids(new_box, x);
                        assert(box_ids(new_boxes[place]).contains(x));
                    } else {
                        assert(new_boxes[i] == old_boxes[i]);
                        assert(box_ids(new_boxes[i]).contains(x));
                    }
                }
                assert(tree_ids(new_boxes).contains(name)) by {
                    lemma_tree_ids(new_boxes, name);
                    lemma_box_ids(new_box, name);
                    assert(box_ids(new_boxes[place]).contains(name));
                }
            },
            None => {
                assert(!last) by {
                    if last {
                        let j = choose|j: int| 0 <= j < planar.len() && (#[trigger] planar[j]).id == name;
                        assert(planar[j].id == path);
                    }
                }
                assert(parent matches Some(p) ==> exists|j: int|
                    1 <= j <= index + 1 && p == #[trigger] join(split(name, d).take(j), d)) by {
                    if parent is Some {
                        let j = choose|j: int|
                            1 <= j <= index && parent->0 == #[trigger] join(
                                split(name, d).take(j),
                                d,
                            );
                        assert(1 <= j <= index + 1 && parent->0 == join(split(name, d).take(j), d));
                    }
                }
                lemma_with_parts(children, planar, d, name, index + 1, parent);
            },
        }
    }
}

/// After the first mailboxes of a flat list were added, the folders hold the
/// ids of those mailboxes and only listed ids, and each mailbox below another
/// has an id that begins with the id of its parent and the delimiter.
proof fn lemma_with_folders(planar: Seq<MailBoxView>, d: Seq<char>, count: int)
    requires
        flat(planar, d),
        0 <= count <= planar.len(),
    ensures
        boxes_below(boxes_of(with_folders(planar, count)), None, d),
        forall|x: Seq<char>|
            tree_ids(boxes_of(with_folders(planar, count))).contains(x) ==> is_listed(x, planar),
        forall|i: int|
            0 <= i < count ==> tree_ids(boxes_of(with_folders(planar, count))).contains(
                (#[trigger] planar[i]).id,
            ),
    decreases count,
{
    if count > 0 {
        lemma_with_folders(planar, d, count - 1);
        let before = with_folders(planar, count - 1);
        let folder = planar[count - 1];
        assert(folder.delimiter == Some(d));
        assert(is_listed(folder.id, planar));
        lemma_join_split(folder.id, d);
        lemma_with_parts(before, planar, d, folder.id, 0, None);
    } else {
        assert(boxes_of(with_folders(planar, 0)) =~= Seq::<MailBoxView>::empty());
    }
}

/// The folder tree of a flat list holds exactly the mailboxes that are
/// listed, and each mailbox that stands below another has an id that begins
/// with the id of its parent and the delimiter: the tree follows the ids.
///
/// This holds of a list in which every mailbox has the same delimiter and
/// none has children yet. A parent that is not listed is not made up; the
/// mailboxes below it stand where it would.
pub proof fn lemma_folder_tree_follows_ids(planar: Seq<MailBoxView>, d: Seq<char>)
    requires
        flat(planar, d),
    ensures
        forall|x: Seq<char>| tree_ids(folder_tree(planar)).contains(x) <==> is_listed(x, planar),
        boxes_below(folder_tree(planar), None, d),
{
    lemma_with_folders(planar, d, planar.len() as int);
    assert forall|x: Seq<char>| is_listed(x, planar) implies tree_ids(folder_tree(planar)).contains(
        x,
    ) by {
        let j = choose|j: int| 0 <= j < planar.len() && (#[trigger] planar[j]).id == x;
        assert(tree_ids(folder_tree(planar)).contains(planar[j].id));
    }
}

/// With every mailbox of the list, each of its parents is in the list: every
/// path that begins the id of a mailbox is the id of a mailbox.
pub open spec fn parents_in_list(planar: Seq<MailBoxView>, d: Seq<char>) -> bool {
    forall|i: int, k: int|
        0 <= i < planar.len() && 0 <= k < split(planar[i].id, d).len() ==> is_listed(
            #[trigger] join(split(planar[i].id, d).take(k + 1), d),
            planar,
        )
}

/// Whether, below a mailbox, every mailbox has the id of its parent, the
/// delimiter and one more segment.
pub open spec fn box_stepped(mailbox: MailBoxView, d: Seq<char>) -> bool
    decreases mailbox, 0nat,
{
    boxes_stepped(mailbox.children, Some(mailbox.id), d)
}

/// Whether each of some mailboxes has the id of the parent, the delimiter and
/// one more segment, and holds below it only mailboxes of which that holds in
/// turn. Below no parent stand the mailboxes whose id is one segment.
pub open spec fn boxes_stepped(boxes: Seq<MailBoxView>, parent: Option<Seq<char>>, d: Seq<char>) -> bool
    decreases boxes, 1nat,
{
    forall|i: int|
        0 <= i < boxes.len() ==> {
            &&& match parent {
                Some(p) => next_below(p, (#[trigger] boxes[i]).id, d),
                None => split(boxes[i].id, d).len() == 1,
            }
            &&& box_stepped(boxes[i], d)
        }
}

/// Laying the rest of the path of a listed id into children that stand one
/// segment below their parent gives children that stand so, where every
/// parent is in the list.
proof fn lemma_with_parts_stepped(
    children: Pairs<NodeView>,
    planar: Seq<MailBoxView>,
    d: Seq<char>,
    name: Seq<char>,
    index: int,
    parent: Option<Seq<char>>,
)
    requires
        d.len() > 0,
        flat(planar, d),
        parents_in_list(planar, d),
        is_listed(name, planar),
        0 <= index <= split(name, d).len(),
        boxes_stepped(boxes_of(children), parent, d),
        index == 0 ==> parent is None,
        index > 0 ==> parent == Some(join(split(name, d).take(index), d)),
    ensures
        boxes_stepped(boxes_of(with_parts(children, planar, d, split(name, d), index)), parent, d),
    decreases split(name, d).len() - index,
{
    let parts = split(name, d);
    if index < parts.len() {
        let path = join(parts.take(index + 1), d);
        let result = with_parts(children, planar, d, parts, index);
        let e = choose|e: int| 0 <= e < planar.len() && (#[trigger] planar[e]).id == name;
        assert(is_listed(join(split(planar[e].id, d).take(index + 1), d), planar));
        lemma_place_with_id(planar, path, 0);
        if place_with_id(planar, path, 0) is None {
            let j = choose|j: int| 0 <= j < planar.len() && (#[trigger] planar[j]).id == path;
            assert(planar[j].id != path);
        }
        let found = first_with_id(planar, path, 0)->0;
        let listed_at = place_with_id(planar, path, 0)->0;
        assert(planar[listed_at].id == path);
        assert(found.children.len() == 0);
        let at = place_of_id(children, path, children.len() as int);
        lemma_place_of_id(children, path, children.len() as int);
        let node = match at {
            Some(k) => children[k].1,
            None => node_of(found),
        };
        assert(node.id == path);
        let old_boxes = boxes_of(children);
        if at is Some {
            let k = at->0;
            assert(old_boxes[k] == box_of(children[k].1));
            assert(box_stepped(old_boxes[k], d));
        } else {
            assert(node.children.len() == 0);
            assert(boxes_of(node.children) =~= Seq::<MailBoxView>::empty());
        }
        assert(boxes_stepped(boxes_of(node.children), Some(path), d));
        lemma_with_parts_stepped(node.children, planar, d, name, index + 1, Some(path));
        let lower = with_parts(node.children, planar, d, parts, index + 1);
        let below = NodeView { children: lower, ..node };
        let new_box = box_of(below);
        let new_boxes = boxes_of(result);
        let place = if at is Some {
            at->0
        } else {
            children.len() as int
        };
        if at is Some {
            assert(new_boxes =~= old_boxes.update(place, new_box));
        } else {
            assert(new_boxes =~= old_boxes.push(new_box));
        }
        assert(new_boxes[place] == new_box);
        lemma_split_path(name, d, index + 1);
        assert(parts.take(index + 1).drop_last() =~= parts.take(index));
        if index > 0 {
            lemma_path_step(parts, d, index);
            lemma_split_path(name, d, index);
        }
        assert(box_stepped(new_box, d));
        assert forall|i: int| 0 <= i < new_boxes.len() implies {
            &&& match parent {
                Some(p) => next_below(p, (#[trigger] new_boxes[i]).id, d),
                None => split(new_boxes[i].id, d).len() == 1,
            }
            &&& box_stepped(new_boxes[i], d)
        } by {
            if i != place {
                assert(new_boxes[i] == old_boxes[i]);
            }
        }
    }
}

/// After the first mailboxes of a flat list were added, each mailbox of the
/// folders stands one segment below its parent, where every parent is in the
/// list.
proof fn lemma_with_folders_stepped(planar: Seq<MailBoxView>, d: Seq<char>, count: int)
    requires
        d.len() > 0,
        flat(planar, d),
        parents_in_list(planar, d),
        0 <= count <= planar.len(),
    ensures
        boxes_stepped(boxes_of(with_folders(planar, count)), None, d),
    decreases count,
{
    if count > 0 {
        lemma_with_folders_stepped(planar, d, count - 1);
        let folder = planar[count - 1];
        assert(folder.delimiter == Some(d));
        assert(is_listed(folder.id, planar));
        lemma_with_parts_stepped(with_folders(planar, count - 1), planar, d, folder.id, 0, None);
    } else {
        assert(boxes_of(with_folders(planar, 0)) =~= Seq::<MailBoxView>::empty());
    }
}

/// In the folder tree of a flat list each mailbox that stands below another
/// has the id of that other, the delimiter and one more segment, and the
/// mailboxes at the top have an id of one segment.
///
/// This holds of a list in which every mailbox has the same delimiter, which
/// is not empty, and no children yet, and in which, with every mailbox, its
/// parents are listed.
pub proof fn lemma_folder_tree_steps(planar: Seq<MailBoxView>, d: Seq<char>)
    requires
        d.len() > 0,
        flat(planar, d),
        parents_in_list(planar, d),
    ensures
        boxes_stepped(folder_tree(planar), None, d),
{
    lemma_with_folders_stepped(planar, d, planar.len() as int);
}

} // verus!
