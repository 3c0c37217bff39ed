//! What the tree of mailboxes has to do with the listing it was built from.
//!
//! For a listing in which every entry has the same delimiter and no two
//! names differ in the case of their letters only, the tree holds exactly the
//! mailboxes that are listed. Where the delimiter is not empty and, with
//! every entry, its parents are listed too, each mailbox stands in the tree
//! once, and one mailbox is a child of another where its id is the id of the
//! other, the delimiter and one more segment, and only there.

use crate::mailbox::{
    entry_branch, first_named, has_id, mailbox_of, mailbox_tree, with_entries, with_path, EntryView,
    MailboxView,
};
use crate::text::{
    free_of, join, lemma_join_split, lemma_pieces_free, lemma_split_join, lemma_split_path, lowercase,
    split,
};
use crate::tree::Tree;
use vstd::prelude::*;

verus! {

/// The shape of a tree of mailboxes.
pub type Boxes = Tree<MailboxView>;

/// The ids of the mailboxes of a tree, in pre-order.
pub open spec fn ids(tree: Boxes) -> Seq<Seq<char>>
    decreases tree, 0nat,
{
    match tree {
        Tree::Leaf(mailbox) => seq![mailbox.id],
        Tree::Branch { data, children } => seq![data.id] + ids_in(children),
        Tree::Root(children) => ids_in(children),
    }
}

/// The ids of the mailboxes of some trees, tree after tree.
pub open spec fn ids_in(trees: Seq<Boxes>) -> Seq<Seq<char>>
    decreases trees, 1nat,
{
    if trees.len() == 0 {
        Seq::empty()
    } else {
        ids_in(trees.drop_last()) + ids(trees.last())
    }
}

/// The mailbox at the top of a branch or a leaf.
pub open spec fn top(tree: Boxes) -> MailboxView {
    match tree {
        Tree::Leaf(mailbox) => mailbox,
        Tree::Branch { data, .. } => data,
        Tree::Root(_) => arbitrary(),
    }
}

/// Whether a mailbox is the mailbox of an entry of the listing.
pub open spec fn is_entry(mailbox: MailboxView, entries: Seq<EntryView>) -> bool {
    exists|j: int| 0 <= j < entries.len() && mailbox == mailbox_of(#[trigger] entries[j])
}

/// Whether a name is the name of an entry of the listing.
pub open spec fn is_name(name: Seq<char>, entries: Seq<EntryView>) -> bool {
    exists|j: int| 0 <= j < entries.len() && name == (#[trigger] entries[j]).name
}

/// Whether the id `child` is the id `parent`, the delimiter and one more
/// segment: `parent` is the path of `child` without its last segment.
pub open spec fn next_below(parent: Seq<char>, child: Seq<char>, d: Seq<char>) -> bool {
    &&& split(child, d).len() == split(parent, d).len() + 1
    &&& parent == join(split(child, d).drop_last(), d)
    &&& child == parent + d + split(child, d).last()
}

/// With a delimiter of one character, an id is the id of a parent, the
/// delimiter and one more segment where it is the id of the parent, the
/// delimiter and a text without the delimiter, and only there.
pub proof fn lemma_next_below_one_character(parent: Seq<char>, child: Seq<char>, c: char)
    ensures
        next_below(parent, child, seq![c]) <==> exists|s: Seq<char>|
            free_of(s, c) && child == parent + seq![c] + s,
{
    let d = seq![c];
    lemma_pieces_free(child, c);
    lemma_pieces_free(parent, c);
    lemma_join_split(child, d);
    lemma_join_split(parent, d);
    if next_below(parent, child, d) {
        let s = split(child, d).last();
        assert(free_of(s, c) && child == parent + d + s);
    }
    if exists|s: Seq<char>| free_of(s, c) && child == parent + d + s {
        let s = choose|s: Seq<char>| free_of(s, c) && child == parent + d + s;
        let parts = split(parent, d).push(s);
        assert(parts.drop_last() =~= split(parent, d));
        assert(join(parts, d) == child);
        assert forall|i: int| 0 <= i < parts.len() implies free_of(#[trigger] parts[i], c) by {
            if i < parts.len() - 1 {
                assert(parts[i] == split(parent, d)[i]);
            }
        }
        lemma_split_join(parts, c);
        assert(split(child, d) == parts);
    }
}

/// Whether a child may stand below a parent: its id is the id of the parent,
/// the delimiter, and one more segment. Below the root stand the mailboxes
/// whose id is one segment.
pub open spec fn child_ok(parent: Option<MailboxView>, child: MailboxView, d: Seq<char>) -> bool {
    match parent {
        Some(parent) => next_below(parent.id, child.id, d),
        None => split(child.id, d).len() == 1,
    }
}

/// Whether `part` is `tree` or stands somewhere below it.
pub open spec fn holds(tree: Boxes, part: Boxes) -> bool
    decreases tree, 0nat,
{
    tree == part || match tree {
        Tree::Leaf(_) => false,
        Tree::Branch { children, .. } => holds_in(children, part),
        Tree::Root(children) => holds_in(children, part),
    }
}

/// Whether `part` is one of the trees or stands somewhere below one of them.
pub open spec fn holds_in(trees: Seq<Boxes>, part: Boxes) -> bool
    decreases trees, 1nat,
{
    exists|i: int| 0 <= i < trees.len() && holds(#[trigger] trees[i], part)
}

/// Whether one of the children of `part` has the id `x` at its top.
pub open spec fn has_child(part: Boxes, x: Seq<char>) -> bool {
    exists|i: int| 0 <= i < part.children().len() && top(#[trigger] part.children()[i]).id == x
}

/// Whether no two of the trees have the same id at their top.
pub open spec fn tops_differ(trees: Seq<Boxes>) -> bool {
    forall|i: int, j: int|
        0 <= i < j < trees.len() ==> top(#[trigger] trees[i]).id != top(#[trigger] trees[j]).id
}

/// Whether a tree is as the builder keeps it while it builds: it has no
/// leaves, and every mailbox in it is the mailbox of an entry. A tree that is
/// sound in the narrow sense, `strict`, has every child where it may stand
/// below its parent, and no two children of one parent have the same id.
pub open spec fn sound(tree: Boxes, entries: Seq<EntryView>, d: Seq<char>, strict: bool) -> bool
    decreases tree, 0nat,
{
    match tree {
        Tree::Leaf(_) => false,
        Tree::Branch { data, children } => is_entry(data, entries) && sound_in(
            children,
            Some(data),
            entries,
            d,
            strict,
        ),
        Tree::Root(children) => sound_in(children, None, entries, d, strict),
    }
}

/// Whether the children of a parent are branches, sound, and may stand below it.
pub open spec fn sound_in(
    trees: Seq<Boxes>,
    parent: Option<MailboxView>,
    entries: Seq<EntryView>,
    d: Seq<char>,
    strict: bool,
) -> bool
    decreases trees, 1nat,
{
    &&& strict ==> tops_differ(trees)
    &&& forall|i: int|
        0 <= i < trees.len() ==> {
            &&& (#[trigger] trees[i]) is Branch
            &&& strict ==> child_ok(parent, top(trees[i]), d)
            &&& sound(trees[i], entries, d, strict)
        }
}

/// Whether every child in the tree stands below the mailbox whose id, with
/// the delimiter and one more segment, is its own, and no two children of one
/// parent have the same id.
pub open spec fn nested(tree: Boxes, d: Seq<char>) -> bool
    decreases tree, 0nat,
{
    match tree {
        Tree::Leaf(_) => true,
        Tree::Branch { data, children } => nested_in(children, Some(data), d),
        Tree::Root(children) => nested_in(children, None, d),
    }
}

/// Whether the children of a parent hold mailboxes that may stand below it,
/// and are nested in turn.
pub open spec fn nested_in(trees: Seq<Boxes>, parent: Option<MailboxView>, d: Seq<char>) -> bool
    decreases trees, 1nat,
{
    &&& tops_differ(trees)
    &&& forall|i: int|
        0 <= i < trees.len() ==> {
            &&& !((#[trigger] trees[i]) is Root)
            &&& child_ok(parent, top(trees[i]), d)
            &&& nested(trees[i], d)
        }
}

/// Every entry has the delimiter `d`.
pub open spec fn one_delimiter(entries: Seq<EntryView>, d: Seq<char>) -> bool {
    forall|i: int| 0 <= i < entries.len() ==> (#[trigger] entries[i]).delimiter == Some(d)
}

/// With every entry, each of its parents is listed: every path that begins
/// the name of an entry is the name of an entry.
pub open spec fn parents_listed(entries: Seq<EntryView>, d: Seq<char>) -> bool {
    forall|i: int, k: int|
        0 <= i < entries.len() && 0 <= k < split(entries[i].name, d).len() ==> is_name(
            #[trigger] join(split(entries[i].name, d).take(k + 1), d),
            entries,
        )
}

/// No two names of the listing differ in the case of their letters only.
pub open spec fn case_distinct(entries: Seq<EntryView>) -> bool {
    forall|i: int, j: int|
        0 <= i < entries.len() && 0 <= j < entries.len() && lowercase(
            (#[trigger] entries[i]).name,
        ) == lowercase((#[trigger] entries[j]).name) ==> entries[i].name == entries[j].name
}

/// Something is in two sequences put together where it is in one of them.
pub proof fn lemma_contains_add<T>(a: Seq<T>, b: Seq<T>, x: T)
    ensures
        (a + b).contains(x) <==> a.contains(x) || b.contains(x),
{
    if a.contains(x) {
        let i = choose|i: int| 0 <= i < a.len() && a[i] == x;
        assert((a + b)[i] == x);
    }
    if b.contains(x) {
        let i = choose|i: int| 0 <= i < b.len() && b[i] == x;
        assert((a + b)[a.len() + i] == x);
    }
    if (a + b).contains(x) {
        let i = choose|i: int| 0 <= i < (a + b).len() && (a + b)[i] == x;
        if i < a.len() {
            assert(a[i] == x);
        } else {
            assert(b[i - a.len()] == x);
        }
    }
}

/// An id is among the ids of some trees where it is among the ids of one of them.
pub proof fn lemma_ids_in(trees: Seq<Boxes>, x: Seq<char>)
    ensures
        ids_in(trees).contains(x) <==> exists|i: int|
            0 <= i < trees.len() && ids(#[trigger] trees[i]).contains(x),
    decreases trees.len(),
{
    if trees.len() > 0 {
        let front = trees.drop_last();
        lemma_ids_in(front, x);
        lemma_contains_add(ids_in(front), ids(trees.last()), x);
        if ids_in(trees).contains(x) {
            if ids_in(front).contains(x) {
                let i = choose|i: int| 0 <= i < front.len() && ids(#[trigger] front[i]).contains(x);
                assert(front[i] == trees[i]);
            } else {
                assert(ids(trees[trees.len() - 1]).contains(x));
            }
        }
        if exists|i: int| 0 <= i < trees.len() && ids(#[trigger] trees[i]).contains(x) {
            let i = choose|i: int| 0 <= i < trees.len() && ids(#[trigger] trees[i]).contains(x);
            if i < trees.len() - 1 {
                assert(front[i] == trees[i]);
            }
        }
    }
}

/// The id at the top of a tree is among its ids, and so are the ids of its children.
pub proof fn lemma_ids_of_node(tree: Boxes, x: Seq<char>)
    ensures
        ids(tree).contains(x) <==> (tree.data() matches Some(m) && m.id == x) || ids_in(
            tree.children(),
        ).contains(x),
{
    match tree {
        Tree::Leaf(mailbox) => {
            assert(ids_in(Seq::<Boxes>::empty()) =~= Seq::<Seq<char>>::empty());
            assert(seq![mailbox.id][0] == mailbox.id);
        },
        Tree::Branch { data, children } => {
            lemma_contains_add(seq![data.id], ids_in(children), x);
            assert(seq![data.id][0] == data.id);
        },
        Tree::Root(children) => {},
    }
}

/// Where the first match among some trees is found: in the first of them
/// that holds a match.
pub proof fn lemma_first_match_position(trees: Seq<Boxes>, q: spec_fn(MailboxView) -> bool) -> (k:
    int)
    requires
        Tree::first_match_in(trees, q) is Some,
    ensures
        0 <= k < trees.len(),
        forall|j: int| 0 <= j < k ==> (#[trigger] trees[j]).first_match(q) is None,
        trees[k].first_match(q) == Tree::first_match_in(trees, q),
    decreases trees.len(),
{
    if trees[0].first_match(q) is Some {
        0
    } else {
        let rest = trees.drop_first();
        let k = lemma_first_match_position(rest, q);
        assert forall|j: int| 0 <= j < k + 1 implies (#[trigger] trees[j]).first_match(q) is None by {
            if j > 0 {
                assert(rest[j - 1] == trees[j]);
            }
        }
        assert(rest[k] == trees[k + 1]);
        k + 1
    }
}

/// What is found in a tree matches at its top and is a part of the tree: its
/// ids are ids of the tree, and it is a sound branch where the tree is sound.
pub proof fn lemma_found(
    tree: Boxes,
    q: spec_fn(MailboxView) -> bool,
    entries: Seq<EntryView>,
    d: Seq<char>,
    strict: bool,
)
    requires
        tree.first_match(q) is Some,
    ensures
        tree.first_match(q)->0.top_matches(q),
        forall|x: Seq<char>| ids(tree.first_match(q)->0).contains(x) ==> ids(tree).contains(x),
        sound(tree, entries, d, strict) ==> sound(tree.first_match(q)->0, entries, d, strict) && tree.first_match(
            q,
        )->0 is Branch,
    decreases tree,
{
    if !tree.top_matches(q) {
        let children = tree.children();
        assert(Tree::first_match_in(children, q) == tree.first_match(q));
        let k = lemma_first_match_position(children, q);
        lemma_found(children[k], q, entries, d, strict);
        let found = tree.first_match(q)->0;
        assert forall|x: Seq<char>| ids(found).contains(x) implies ids(tree).contains(x) by {
            assert(ids(children[k]).contains(x));
            lemma_ids_in(children, x);
            lemma_ids_of_node(tree, x);
        }
        if sound(tree, entries, d, strict) {
            assert(sound(children[k], entries, d, strict));
        }
    }
}

/// Replacing what is found in a sound tree by a sound branch with the same
/// mailbox at its top, which holds the ids of what it replaces, gives a sound
/// tree with the same top that holds the ids of both.
pub proof fn lemma_replaced(
    tree: Boxes,
    q: spec_fn(MailboxView) -> bool,
    with: Boxes,
    entries: Seq<EntryView>,
    d: Seq<char>,
    strict: bool,
)
    requires
        tree.first_match(q) is Some,
        sound(tree, entries, d, strict),
        sound(with, entries, d, strict),
        with is Branch,
        top(with) == top(tree.first_match(q)->0),
        forall|x: Seq<char>| ids(tree.first_match(q)->0).contains(x) ==> ids(with).contains(x),
    ensures
        sound(tree.replace_first(q, with), entries, d, strict),
        tree is Branch ==> tree.replace_first(q, with) is Branch && top(
            tree.replace_first(q, with),
        ) == top(tree),
        tree is Root ==> tree.replace_first(q, with) is Root,
        forall|x: Seq<char>| ids(tree).contains(x) ==> ids(tree.replace_first(q, with)).contains(x),
        forall|x: Seq<char>| ids(with).contains(x) ==> ids(tree.replace_first(q, with)).contains(x),
    decreases tree,
{
    if !tree.top_matches(q) {
        let children = tree.children();
        let parent = tree.data();
        assert(Tree::first_match_in(children, q) == tree.first_match(q));
        let k = lemma_first_match_position(children, q);
        Tree::lemma_first_match_at(children, q, k);
        let new_child = children[k].replace_first(q, with);
        let new_children = children.update(k, new_child);
        assert(Tree::replace_first_in(children, q, with) == new_children);
        assert(sound(children[k], entries, d, strict));
        assert(children[k] is Branch);
        lemma_replaced(children[k], q, with, entries, d, strict);
        let result = tree.replace_first(q, with);
        assert(result.children() == new_children);
        assert(result.data() == tree.data());
        assert forall|i: int| 0 <= i < new_children.len() implies {
            &&& (#[trigger] new_children[i]) is Branch
            &&& top(new_children[i]) == top(children[i])
            &&& strict ==> child_ok(parent, top(new_children[i]), d)
            &&& sound(new_children[i], entries, d, strict)
        } by {
            if i != k {
                assert(new_children[i] == children[i]);
            }
        }
        if strict {
            assert forall|i: int, j: int| 0 <= i < j < new_children.len() implies top(
                #[trigger] new_children[i],
            ).id != top(#[trigger] new_children[j]).id by {
                assert(top(children[i]).id != top(children[j]).id);
            }
        }
        assert(sound(result, entries, d, strict));
        assert forall|x: Seq<char>| ids(tree).contains(x) implies ids(result).contains(x) by {
            lemma_ids_of_node(tree, x);
            lemma_ids_of_node(result, x);
            lemma_ids_in(children, x);
            lemma_ids_in(new_children, x);
            if ids_in(children).contains(x) {
                let i = choose|i: int| 0 <= i < children.len() && ids(#[trigger] children[i]).contains(x);
                if i == k {
                    assert(ids(new_children[k]).contains(x));
                } else {
                    assert(new_children[i] == children[i]);
                    assert(ids(new_children[i]).contains(x));
                }
            }
        }
        assert forall|x: Seq<char>| ids(with).contains(x) implies ids(result).contains(x) by {
            lemma_ids_of_node(result, x);
            lemma_ids_in(new_children, x);
            assert(ids(new_children[k]).contains(x));
        }
    } else {
        assert(tree.first_match(q)->0 == tree);
    }
}

/// A sound branch that may stand below a sound tree can be made its last
/// child: the tree stays sound and holds the ids of both.
pub proof fn lemma_with_child(
    tree: Boxes,
    child: Boxes,
    entries: Seq<EntryView>,
    d: Seq<char>,
    strict: bool,
)
    requires
        sound(tree, entries, d, strict),
        sound(child, entries, d, strict),
        child is Branch,
        strict ==> child_ok(tree.data(), top(child), d),
        strict ==> forall|i: int|
            0 <= i < tree.children().len() ==> top(#[trigger] tree.children()[i]).id != top(
                child,
            ).id,
    ensures
        sound(tree.with_child(child), entries, d, strict),
        tree is Branch ==> tree.with_child(child) is Branch && top(tree.with_child(child)) == top(
            tree,
        ),
        tree is Root ==> tree.with_child(child) is Root,
        forall|x: Seq<char>| ids(tree).contains(x) ==> ids(tree.with_child(child)).contains(x),
        forall|x: Seq<char>| ids(child).contains(x) ==> ids(tree.with_child(child)).contains(x),
{
    let result = tree.with_child(child);
    let children = tree.children();
    let new_children = children.push(child);
    assert(result.children() == new_children);
    assert forall|i: int| 0 <= i < new_children.len() implies {
        &&& (#[trigger] new_children[i]) is Branch
        &&& strict ==> child_ok(tree.data(), top(new_children[i]), d)
        &&& sound(new_children[i], entries, d, strict)
    } by {
        if i < children.len() {
            assert(new_children[i] == children[i]);
        }
    }
    if strict {
        assert forall|i: int, j: int| 0 <= i < j < new_children.len() implies top(
            #[trigger] new_children[i],
        ).id != top(#[trigger] new_children[j]).id by {
            assert(new_children[i] == children[i]);
            if j < children.len() {
                assert(new_children[j] == children[j]);
                assert(top(children[i]).id != top(children[j]).id);
            }
        }
    }
    assert forall|x: Seq<char>| ids(tree).contains(x) implies ids(result).contains(x) by {
        lemma_ids_of_node(tree, x);
        lemma_ids_of_node(result, x);
        lemma_ids_in(children, x);
        lemma_ids_in(new_children, x);
        if ids_in(children).contains(x) {
            let i = choose|i: int| 0 <= i < children.len() && ids(#[trigger] children[i]).contains(x);
            assert(new_children[i] == children[i]);
            assert(ids(new_children[i]).contains(x));
        }
    }
    assert forall|x: Seq<char>| ids(child).contains(x) implies ids(result).contains(x) by {
        lemma_ids_of_node(result, x);
        lemma_ids_in(new_children, x);
        assert(new_children[children.len() as int] == child);
        assert(ids(new_children[children.len() as int]).contains(x));
    }
}

/// Every id of a sound tree is the name of an entry.
pub proof fn lemma_sound_ids(
    tree: Boxes,
    entries: Seq<EntryView>,
    d: Seq<char>,
    strict: bool,
    x: Seq<char>,
)
    requires
        sound(tree, entries, d, strict),
        ids(tree).contains(x),
    ensures
        is_name(x, entries),
    decreases tree,
{
    lemma_ids_of_node(tree, x);
    if tree.data() is Some && tree.data()->0.id == x {
        let m = tree.data()->0;
        assert(is_entry(m, entries));
        let j = choose|j: int| 0 <= j < entries.len() && m == mailbox_of(#[trigger] entries[j]);
        assert(x == entries[j].name);
    } else {
        let children = tree.children();
        lemma_ids_in(children, x);
        let i = choose|i: int| 0 <= i < children.len() && ids(#[trigger] children[i]).contains(x);
        assert(sound(children[i], entries, d, strict));
        lemma_sound_ids(children[i], entries, d, strict, x);
    }
}

/// The first entry of a given name is there where the name is a name of the
/// listing, and bears that name.
pub proof fn lemma_first_named(entries: Seq<EntryView>, name: Seq<char>)
    ensures
        is_name(name, entries) ==> first_named(entries, name) is Some,
        first_named(entries, name) matches Some(e) ==> e.name == name && exists|j: int|
            0 <= j < entries.len() && e == #[trigger] entries[j],
    decreases entries.len(),
{
    if entries.len() > 0 {
        let rest = entries.drop_first();
        lemma_first_named(rest, name);
        if entries[0].name != name {
            if is_name(name, entries) {
                let j = choose|j: int| 0 <= j < entries.len() && name == (#[trigger] entries[j]).name;
                assert(rest[j - 1] == entries[j]);
                assert(is_name(name, rest));
            }
            if first_named(rest, name) is Some {
                let e = first_named(rest, name)->0;
                let j = choose|j: int| 0 <= j < rest.len() && e == #[trigger] rest[j];
                assert(entries[j + 1] == rest[j]);
            }
        } else {
            assert(entries[0] == entries[0]);
        }
    }
}

/// Where a tree holds no match, none of its children has one at its top.
pub proof fn lemma_no_match_below(tree: Boxes, q: spec_fn(MailboxView) -> bool)
    requires
        tree.first_match(q) is None,
    ensures
        forall|i: int|
            0 <= i < tree.children().len() ==> !(#[trigger] tree.children()[i]).top_matches(q),
{
    let children = tree.children();
    assert(Tree::first_match_in(children, q) is None);
    assert forall|i: int| 0 <= i < children.len() implies !(#[trigger] children[i]).top_matches(
        q,
    ) by {
        lemma_no_match_at(children, q, i);
    }
}

/// Where some trees hold no match, none of them holds one.
proof fn lemma_no_match_at(trees: Seq<Boxes>, q: spec_fn(MailboxView) -> bool, at: int)
    requires
        Tree::first_match_in(trees, q) is None,
        0 <= at < trees.len(),
    ensures
        trees[at].first_match(q) is None,
    decreases at,
{
    if at > 0 {
        let rest = trees.drop_first();
        assert(rest[at - 1] == trees[at]);
        lemma_no_match_at(rest, q, at - 1);
    }
}

/// The path up to a segment is the path up to the segment before it, the
/// delimiter, and the segment.
pub proof fn lemma_path_step(parts: Seq<Seq<char>>, d: Seq<char>, index: int)
    requires
        1 <= index < parts.len(),
    ensures
        join(parts.take(index + 1), d) == join(parts.take(index), d) + d + parts[index],
{
    assert(parts.take(index + 1).drop_last() =~= parts.take(index));
}

/// Laying the rest of the path of an entry below a sound tree gives a sound
/// tree with the same top that holds the ids that it held and the name of
/// the entry. In the narrow sense this asks that the top of the tree is the
/// mailbox of the path so far, and that the parents of every entry are listed.
pub proof fn lemma_with_path(
    entries: Seq<EntryView>,
    d: Seq<char>,
    strict: bool,
    tree: Boxes,
    name: Seq<char>,
    index: int,
)
    requires
        strict ==> parents_listed(entries, d) && d.len() > 0,
        case_distinct(entries),
        is_name(name, entries),
        0 <= index <= split(name, d).len(),
        sound(tree, entries, d, strict),
        strict && index == 0 ==> tree is Root,
        strict && index > 0 ==> tree is Branch && top(tree).id == join(
            split(name, d).take(index),
            d,
        ),
    ensures
        sound(with_path(entries, tree, d, split(name, d), index), entries, d, strict),
        tree is Root ==> with_path(entries, tree, d, split(name, d), index) is Root,
        tree is Branch ==> with_path(entries, tree, d, split(name, d), index) is Branch && top(
            with_path(entries, tree, d, split(name, d), index),
        ) == top(tree),
        forall|x: Seq<char>|
            ids(tree).contains(x) ==> ids(
                with_path(entries, tree, d, split(name, d), index),
            ).contains(x),
        index < split(name, d).len() ==> ids(
            with_path(entries, tree, d, split(name, d), index),
        ).contains(name),
    decreases split(name, d).len() - index,
{
    let parts = split(name, d);
    if index < parts.len() {
        let id = join(parts.take(index + 1), d);
        let wanted = has_id(lowercase(id));
        let result = with_path(entries, tree, d, parts, index);
        let last = index == parts.len() - 1;
        let e = choose|e: int| 0 <= e < entries.len() && name == (#[trigger] entries[e]).name;
        if last {
            lemma_join_split(name, d);
            assert(parts.take(index + 1) =~= parts);
            assert(id == name);
        }
        if strict {
            assert(is_name(join(split(entries[e].name, d).take(index + 1), d), entries));
        }
        lemma_first_named(entries, id);
        match tree.first_match(wanted) {
            Some(found) => {
                lemma_found(tree, wanted, entries, d, strict);
                assert(wanted(top(found)));
                if strict || last {
                    let j = choose|j: int|
                        0 <= j < entries.len() && top(found) == mailbox_of(#[trigger] entries[j]);
                    let j2 = choose|j2: int|
                        0 <= j2 < entries.len() && id == (#[trigger] entries[j2]).name;
                    assert(lowercase(entries[j].name) == lowercase(entries[j2].name));
                    assert(top(found).id == id);
                }
                lemma_with_path(entries, d, strict, found, name, index + 1);
                let below = with_path(entries, found, d, parts, index + 1);
                lemma_replaced(tree, wanted, below, entries, d, strict);
                assert(result == tree.replace_first(wanted, below));
                if last {
                    lemma_ids_of_node(found, id);
                    assert(ids(found).contains(name));
                }
                assert(ids(below).contains(name));
            },
            None => {
                match first_named(entries, id) {
                    Some(entry) => {
                        let fresh = entry_branch(entry);
                        assert(is_entry(mailbox_of(entry), entries));
                        assert(sound(fresh, entries, d, strict));
                        lemma_with_path(entries, d, strict, fresh, name, index + 1);
                        let below = with_path(entries, fresh, d, parts, index + 1);
                        if strict {
                            lemma_split_path(name, d, index + 1);
                            assert(parts.take(index + 1).drop_last() =~= parts.take(index));
                            if index > 0 {
                                lemma_path_step(parts, d, index);
                                lemma_split_path(name, d, index);
                            }
                            lemma_no_match_below(tree, wanted);
                            assert forall|i: int| 0 <= i < tree.children().len() implies top(
                                #[trigger] tree.children()[i],
                            ).id != id by {
                                assert(tree.children()[i] is Branch);
                                assert(!tree.children()[i].top_matches(wanted));
                            }
                        }
                        lemma_with_child(tree, below, entries, d, strict);
                        assert(result == tree.with_child(below));
                        if last {
                            lemma_ids_of_node(fresh, id);
                            assert(ids(fresh).contains(name));
                        }
                        assert(ids(below).contains(name));
                    },
                    None => {
                        lemma_with_path(entries, d, strict, tree, name, index + 1);
                    },
                }
            },
        }
    }
}

/// After the first entries of the listing were added to the empty root, the
/// tree is a sound root that holds the names of those entries.
pub proof fn lemma_with_entries(entries: Seq<EntryView>, d: Seq<char>, strict: bool, count: int)
    requires
        one_delimiter(entries, d),
        strict ==> parents_listed(entries, d) && d.len() > 0,
        case_distinct(entries),
        0 <= count <= entries.len(),
    ensures
        sound(with_entries(entries, Tree::Root(Seq::empty()), count), entries, d, strict),
        with_entries(entries, Tree::Root(Seq::empty()), count) is Root,
        forall|i: int|
            0 <= i < count ==> ids(with_entries(entries, Tree::Root(Seq::empty()), count)).contains(
                (#[trigger] entries[i]).name,
            ),
    decreases count,
{
    if count > 0 {
        lemma_with_entries(entries, d, strict, count - 1);
        let before = with_entries(entries, Tree::Root(Seq::empty()), count - 1);
        let entry = entries[count - 1];
        let after = with_entries(entries, Tree::Root(Seq::empty()), count);
        assert(entry.delimiter == Some(d));
        assert(after == with_path(entries, before, d, split(entry.name, d), 0));
        lemma_with_path(entries, d, strict, before, entry.name, 0);
        lemma_join_split(entry.name, d);
    }
}

/// Normal form keeps the mailbox at the top of a branch or a leaf, and never
/// makes a root of them.
pub proof fn lemma_normalized_top(tree: Boxes)
    requires
        !(tree is Root),
    ensures
        !(tree.normalized() is Root),
        top(tree.normalized()) == top(tree),
{
}

/// Normal form keeps the ids.
pub proof fn lemma_normalized_ids(tree: Boxes, x: Seq<char>)
    ensures
        ids(tree.normalized()).contains(x) <==> ids(tree).contains(x),
    decreases tree, 0nat,
{
    match tree {
        Tree::Leaf(_) => {},
        Tree::Branch { data, children } => {
            if children.len() == 0 {
                assert(ids_in(children) =~= Seq::<Seq<char>>::empty());
                assert(ids(tree) =~= seq![data.id]);
            } else {
                lemma_normalized_ids_in(children, x);
                lemma_ids_of_node(tree, x);
                lemma_ids_of_node(tree.normalized(), x);
            }
        },
        Tree::Root(children) => {
            if children.len() == 1 {
                lemma_normalized_ids(children[0], x);
                lemma_ids_in(children, x);
                if ids(children[0]).contains(x) {
                    assert(ids_in(children).contains(x));
                }
            } else {
                lemma_normalized_ids_in(children, x);
            }
        },
    }
}

proof fn lemma_normalized_ids_in(trees: Seq<Boxes>, x: Seq<char>)
    ensures
        ids_in(Tree::normalized_all(trees)).contains(x) <==> ids_in(trees).contains(x),
    decreases trees, 1nat,
{
    let normal = Tree::normalized_all(trees);
    lemma_ids_in(trees, x);
    lemma_ids_in(normal, x);
    if ids_in(trees).contains(x) {
        let i = choose|i: int| 0 <= i < trees.len() && ids(#[trigger] trees[i]).contains(x);
        lemma_normalized_ids(trees[i], x);
        assert(ids(normal[i]).contains(x));
    }
    if ids_in(normal).contains(x) {
        let i = choose|i: int| 0 <= i < normal.len() && ids(#[trigger] normal[i]).contains(x);
        lemma_normalized_ids(trees[i], x);
        assert(ids(trees[i]).contains(x));
    }
}

/// The normal form of a tree that is sound in the narrow sense is nested.
pub proof fn lemma_normalized_nested(tree: Boxes, entries: Seq<EntryView>, d: Seq<char>)
    requires
        sound(tree, entries, d, true),
    ensures
        nested(tree.normalized(), d),
    decreases tree, 0nat,
{
    match tree {
        Tree::Leaf(_) => {},
        Tree::Branch { data, children } => {
            if children.len() > 0 {
                lemma_normalized_nested_in(children, Some(data), entries, d);
            }
        },
        Tree::Root(children) => {
            if children.len() == 1 {
                assert(sound(children[0], entries, d, true));
                lemma_normalized_nested(children[0], entries, d);
            } else {
                lemma_normalized_nested_in(children, None, entries, d);
            }
        },
    }
}

proof fn lemma_normalized_nested_in(
    trees: Seq<Boxes>,
    parent: Option<MailboxView>,
    entries: Seq<EntryView>,
    d: Seq<char>,
)
    requires
        sound_in(trees, parent, entries, d, true),
    ensures
        nested_in(Tree::normalized_all(trees), parent, d),
    decreases trees, 1nat,
{
    let normal = Tree::normalized_all(trees);
    assert forall|i: int| 0 <= i < normal.len() implies {
        &&& !((#[trigger] normal[i]) is Root)
        &&& top(normal[i]) == top(trees[i])
        &&& child_ok(parent, top(normal[i]), d)
        &&& nested(normal[i], d)
    } by {
        assert(trees[i] is Branch);
        assert(sound(trees[i], entries, d, true));
        lemma_normalized_top(trees[i]);
        lemma_normalized_nested(trees[i], entries, d);
    }
    assert forall|i: int, j: int| 0 <= i < j < normal.len() implies top(#[trigger] normal[i]).id
        != top(#[trigger] normal[j]).id by {
        assert(top(trees[i]).id != top(trees[j]).id);
    }
}

/// Whether the id `p` is `x` or one of the paths that begin it: the first
/// segments of `x`, as many as `p` has, joined again.
pub open spec fn under(x: Seq<char>, p: Seq<char>, d: Seq<char>) -> bool {
    split(p, d).len() <= split(x, d).len() && p == join(
        split(x, d).take(split(p, d).len() as int),
        d,
    )
}

/// Every id of a nested tree lies under the id at its top.
pub proof fn lemma_ids_under(tree: Boxes, d: Seq<char>, y: Seq<char>)
    requires
        d.len() > 0,
        nested(tree, d),
        !(tree is Root),
        ids(tree).contains(y),
    ensures
        under(y, top(tree).id, d),
    decreases tree,
{
    let p = top(tree).id;
    lemma_ids_of_node(tree, y);
    if y == p {
        lemma_join_split(p, d);
        assert(split(p, d).take(split(p, d).len() as int) =~= split(p, d));
    } else {
        let children = tree.children();
        lemma_ids_in(children, y);
        let i = choose|i: int| 0 <= i < children.len() && ids(#[trigger] children[i]).contains(y);
        assert(nested_in(children, Some(top(tree)), d));
        assert(child_ok(Some(top(tree)), top(children[i]), d));
        lemma_ids_under(children[i], d, y);
        let c = top(children[i]).id;
        let n = split(c, d).len() as int;
        lemma_split_path(y, d, n);
        assert(split(y, d).take(n).drop_last() =~= split(y, d).take(n - 1));
    }
}

/// No id stands twice in a nested tree.
pub proof fn lemma_nested_once(tree: Boxes, d: Seq<char>)
    requires
        d.len() > 0,
        nested(tree, d),
    ensures
        ids(tree).no_duplicates(),
    decreases tree, 0nat,
{
    match tree {
        Tree::Leaf(_) => {},
        Tree::Branch { data, children } => {
            lemma_nested_once_in(children, Some(data), d);
            let below = ids_in(children);
            assert forall|i: int, j: int| 0 <= i < 1 && 0 <= j < below.len() implies seq![
                data.id,
            ][i] != below[j] by {
                let y = below[j];
                assert(below.contains(y));
                lemma_ids_in(children, y);
                let k = choose|k: int|
                    0 <= k < children.len() && ids(#[trigger] children[k]).contains(y);
                assert(child_ok(Some(data), top(children[k]), d));
                lemma_ids_under(children[k], d, y);
            }
            vstd::seq_lib::lemma_no_dup_in_concat(seq![data.id], below);
        },
        Tree::Root(children) => {
            lemma_nested_once_in(children, None, d);
        },
    }
}

proof fn lemma_nested_once_in(trees: Seq<Boxes>, parent: Option<MailboxView>, d: Seq<char>)
    requires
        d.len() > 0,
        nested_in(trees, parent, d),
    ensures
        ids_in(trees).no_duplicates(),
    decreases trees, 1nat,
{
    if trees.len() > 0 {
        let front = trees.drop_last();
        let last = trees.last();
        assert forall|i: int| 0 <= i < front.len() implies {
            &&& !((#[trigger] front[i]) is Root)
            &&& child_ok(parent, top(front[i]), d)
            &&& nested(front[i], d)
        } by {
            assert(front[i] == trees[i]);
        }
        assert forall|i: int, j: int| 0 <= i < j < front.len() implies top(#[trigger] front[i]).id
            != top(#[trigger] front[j]).id by {
            assert(top(trees[i]).id != top(trees[j]).id);
        }
        lemma_nested_once_in(front, parent, d);
        assert(child_ok(parent, top(trees[trees.len() - 1]), d));
        lemma_nested_once(last, d);
        assert forall|i: int, j: int|
            0 <= i < ids_in(front).len() && 0 <= j < ids(last).len() implies ids_in(front)[i]
            != ids(last)[j] by {
            let y = ids_in(front)[i];
            if y == ids(last)[j] {
                assert(ids_in(front).contains(y));
                assert(ids(last).contains(y));
                lemma_ids_in(front, y);
                let k = choose|k: int| 0 <= k < front.len() && ids(#[trigger] front[k]).contains(y);
                assert(front[k] == trees[k]);
                assert(child_ok(parent, top(trees[k]), d));
                lemma_ids_under(trees[k], d, y);
                lemma_ids_under(last, d, y);
                assert(top(trees[k]).id != top(trees[trees.len() - 1]).id);
            }
        }
        vstd::seq_lib::lemma_no_dup_in_concat(ids_in(front), ids(last));
    }
}

/// A part of a nested tree is nested, and the id at its top is an id of the tree.
pub proof fn lemma_part(tree: Boxes, part: Boxes, d: Seq<char>)
    requires
        holds(tree, part),
        nested(tree, d),
    ensures
        nested(part, d),
        !(part is Root) ==> ids(tree).contains(top(part).id),
    decreases tree,
{
    if tree == part {
        if !(part is Root) {
            lemma_ids_of_node(tree, top(part).id);
        }
    } else {
        let children = tree.children();
        assert(holds_in(children, part));
        let k = choose|k: int| 0 <= k < children.len() && holds(#[trigger] children[k], part);
        assert(nested_in(children, tree.data(), d));
        assert(nested(children[k], d));
        lemma_part(children[k], part, d);
        if !(part is Root) {
            lemma_ids_in(children, top(part).id);
            lemma_ids_of_node(tree, top(part).id);
        }
    }
}

/// In a nested tree, the mailbox whose id is the id of another, the
/// delimiter and one more segment, is a child of that other.
pub proof fn lemma_stands_below(tree: Boxes, part: Boxes, d: Seq<char>, x: Seq<char>)
    requires
        d.len() > 0,
        nested(tree, d),
        holds(tree, part),
        !(part is Root),
        ids(tree).contains(x),
        next_below(top(part).id, x, d),
    ensures
        has_child(part, x),
    decreases tree,
{
    let p = top(part).id;
    let children = tree.children();
    let depth = split(x, d).len() as int;
    lemma_ids_of_node(tree, x);
    lemma_ids_in(children, x);
    lemma_join_split(x, d);
    lemma_join_split(p, d);
    assert(split(x, d).take(depth) =~= split(x, d));
    assert(split(x, d).drop_last() =~= split(x, d).take(depth - 1));
    lemma_split_path(x, d, depth - 1);
    assert(split(p, d) == split(x, d).take(depth - 1));
    assert(nested_in(children, tree.data(), d));
    if tree == part {
        let i = choose|i: int| 0 <= i < children.len() && ids(#[trigger] children[i]).contains(x);
        assert(child_ok(Some(top(part)), top(children[i]), d));
        lemma_ids_under(children[i], d, x);
        assert(top(part.children()[i]).id == x);
    } else {
        assert(holds_in(children, part));
        let k = choose|k: int| 0 <= k < children.len() && holds(#[trigger] children[k], part);
        assert(child_ok(tree.data(), top(children[k]), d));
        lemma_part(children[k], part, d);
        lemma_ids_under(children[k], d, p);
        let c = top(children[k]).id;
        let n = split(c, d).len() as int;
        assert(split(p, d).take(n) =~= split(x, d).take(n));
        if ids_in(children).contains(x) {
            let i = choose|i: int|
                0 <= i < children.len() && ids(#[trigger] children[i]).contains(x);
            assert(child_ok(tree.data(), top(children[i]), d));
            lemma_ids_under(children[i], d, x);
            if i < k {
                assert(top(children[i]).id != top(children[k]).id);
            } else if k < i {
                assert(top(children[k]).id != top(children[i]).id);
            }
            lemma_stands_below(children[k], part, d, x);
        }
    }
}

/// The tree of a listing holds exactly the mailboxes that are listed: an id
/// is among the ids of the tree, read in pre-order, where it is the name of
/// an entry, and only there.
///
/// This holds of a listing in which every entry has the same delimiter and
/// in which no two names differ in the case of their letters only. A parent
/// that is not listed is not made up; the mailboxes below it are kept.
pub proof fn lemma_tree_holds_listing(entries: Seq<EntryView>, d: Seq<char>)
    requires
        one_delimiter(entries, d),
        case_distinct(entries),
    ensures
        forall|x: Seq<char>| ids(mailbox_tree(entries)).contains(x) <==> is_name(x, entries),
{
    let built = with_entries(entries, Tree::Root(Seq::empty()), entries.len() as int);
    lemma_with_entries(entries, d, false, entries.len() as int);
    assert forall|x: Seq<char>| ids(mailbox_tree(entries)).contains(x) <==> is_name(
        x,
        entries,
    ) by {
        lemma_normalized_ids(built, x);
        if ids(built).contains(x) {
            lemma_sound_ids(built, entries, d, false, x);
        }
        if is_name(x, entries) {
            let j = choose|j: int| 0 <= j < entries.len() && x == (#[trigger] entries[j]).name;
            assert(ids(built).contains(entries[j].name));
        }
    }
}

/// In the tree of a listing each mailbox stands below the mailbox whose id,
/// with the delimiter and one more segment, is its own; a mailbox whose id is
/// one segment stands below no mailbox; and no two children of one parent
/// have the same id.
///
/// This holds of a listing in which every entry has the same delimiter, which
/// is not empty; in which, with every entry, its parents are listed; and in
/// which no two names differ in the case of their letters only.
pub proof fn lemma_tree_is_nested(entries: Seq<EntryView>, d: Seq<char>)
    requires
        d.len() > 0,
        one_delimiter(entries, d),
        parents_listed(entries, d),
        case_distinct(entries),
    ensures
        nested(mailbox_tree(entries), d),
{
    let built = with_entries(entries, Tree::Root(Seq::empty()), entries.len() as int);
    lemma_with_entries(entries, d, true, entries.len() as int);
    lemma_normalized_nested(built, entries, d);
}

/// In the tree of a listing no mailbox stands twice: the ids of the tree,
/// read in pre-order, are the names of the listing, each of them once.
///
/// This holds of a listing in which every entry has the same delimiter, which
/// is not empty; in which, with every entry, its parents are listed; and in
/// which no two names differ in the case of their letters only.
pub proof fn lemma_tree_holds_each_once(entries: Seq<EntryView>, d: Seq<char>)
    requires
        d.len() > 0,
        one_delimiter(entries, d),
        parents_listed(entries, d),
        case_distinct(entries),
    ensures
        ids(mailbox_tree(entries)).no_duplicates(),
        forall|x: Seq<char>| ids(mailbox_tree(entries)).contains(x) <==> is_name(x, entries),
{
    lemma_tree_holds_listing(entries, d);
    lemma_tree_is_nested(entries, d);
    lemma_nested_once(mailbox_tree(entries), d);
}

/// In the tree of a listing one mailbox is a child of another where its id
/// is the id of the other, the delimiter and one more segment, and only
/// there.
///
/// This holds of a listing in which every entry has the same delimiter, which
/// is not empty; in which, with every entry, its parents are listed; and in
/// which no two names differ in the case of their letters only.
pub proof fn lemma_tree_children(
    entries: Seq<EntryView>,
    d: Seq<char>,
    part: Boxes,
    x: Seq<char>,
)
    requires
        d.len() > 0,
        one_delimiter(entries, d),
        parents_listed(entries, d),
        case_distinct(entries),
        holds(mailbox_tree(entries), part),
        !(part is Root),
        is_name(x, entries),
    ensures
        has_child(part, x) <==> next_below(top(part).id, x, d),
{
    let tree = mailbox_tree(entries);
    lemma_tree_holds_listing(entries, d);
    lemma_tree_is_nested(entries, d);
    lemma_part(tree, part, d);
    if next_below(top(part).id, x, d) {
        lemma_stands_below(tree, part, d, x);
    }
    if has_child(part, x) {
        let i = choose|i: int|
            0 <= i < part.children().len() && top(#[trigger] part.children()[i]).id == x;
        assert(nested_in(part.children(), Some(top(part)), d));
        assert(child_ok(Some(top(part)), top(part.children()[i]), d));
    }
}

/// The names of a listing, in its order.
pub open spec fn names(entries: Seq<EntryView>) -> Seq<Seq<char>> {
    Seq::new(entries.len(), |i: int| entries[i].name)
}

/// The ids of the tree of a listing, read in pre-order, are the names of the
/// listing in some order: every name once, and no id that is no name.
///
/// This holds of a listing in which every entry has the same delimiter, which
/// is not empty; in which, with every entry, its parents are listed; and in
/// which no two entries have the same name, whatever the case of its letters.
pub proof fn lemma_tree_permutes_listing(entries: Seq<EntryView>, d: Seq<char>)
    requires
        d.len() > 0,
        one_delimiter(entries, d),
        parents_listed(entries, d),
        case_distinct(entries),
        names(entries).no_duplicates(),
    ensures
        ids(mailbox_tree(entries)).to_multiset() == names(entries).to_multiset(),
{
    let found = ids(mailbox_tree(entries));
    let listed = names(entries);
    lemma_tree_holds_each_once(entries, d);
    found.lemma_multiset_has_no_duplicates();
    listed.lemma_multiset_has_no_duplicates();
    found.to_multiset_ensures();
    listed.to_multiset_ensures();
    assert forall|x: Seq<char>| found.to_multiset().count(x) == listed.to_multiset().count(x) by {
        if is_name(x, entries) {
            let j = choose|j: int| 0 <= j < entries.len() && x == (#[trigger] entries[j]).name;
            assert(listed[j] == x);
            assert(listed.contains(x));
            assert(found.contains(x));
        } else if listed.contains(x) {
            let j = choose|j: int| 0 <= j < listed.len() && listed[j] == x;
            assert(x == entries[j].name);
        }
    }
    assert(found.to_multiset() =~= listed.to_multiset());
}

} // verus!
