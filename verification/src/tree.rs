//! A small tree with three kinds of node: a root that only holds children, a
//! branch that holds data and children, and a leaf that only holds data.
//!
//! Contracts are stated over [`Tree`], the mathematical shape of a [`Node`].

use vstd::prelude::*;

verus! {

/// A predicate over the data of a node, used to search a tree.
pub trait Find<T: View> {
    /// What the predicate holds of an item, by the item's view. A finder
    /// that does not say has a predicate of which nothing is known.
    open spec fn matches(&self, item: T::V) -> bool {
        arbitrary()
    }

    /// Decides the predicate.
    fn find(&self, item: &T) -> (found: bool)
        ensures
            found == self.matches(item@),
    ;
}

/// The predicate of a finder, as a function on views.
pub open spec fn pred_of<T: View, P: Find<T>>(finder: &P) -> spec_fn(T::V) -> bool {
    |item: T::V| finder.matches(item)
}

/// The mathematical shape of a [`Node`].
pub enum Tree<T> {
    Branch { data: T, children: Seq<Tree<T>> },
    Root(Seq<Tree<T>>),
    Leaf(T),
}

impl<T> Tree<T> {
    /// The children of a tree; a leaf has none.
    pub open spec fn children(self) -> Seq<Tree<T>> {
        match self {
            Tree::Branch { children, .. } => children,
            Tree::Root(children) => children,
            Tree::Leaf(_) => Seq::empty(),
        }
    }

    /// The data at the top of a tree; a root has none.
    pub open spec fn data(self) -> Option<T> {
        match self {
            Tree::Branch { data, .. } => Some(data),
            Tree::Leaf(data) => Some(data),
            Tree::Root(_) => None,
        }
    }

    /// Whether the data at the top of the tree satisfies `pred`. A root never does.
    pub open spec fn top_matches(self, pred: spec_fn(T) -> bool) -> bool {
        match self.data() {
            Some(data) => pred(data),
            None => false,
        }
    }

    /// The tree with `child` appended, where the tree can hold children.
    pub open spec fn with_child(self, child: Tree<T>) -> Tree<T> {
        match self {
            Tree::Branch { data, children } => Tree::Branch { data, children: children.push(child) },
            Tree::Root(children) => Tree::Root(children.push(child)),
            Tree::Leaf(_) => self,
        }
    }

    /// The tree with the data at its top replaced; a root has none to replace.
    pub open spec fn with_data(self, data: T) -> Tree<T> {
        match self {
            Tree::Branch { children, .. } => Tree::Branch { data, children },
            Tree::Root(_) => self,
            Tree::Leaf(_) => Tree::Leaf(data),
        }
    }

    /// The first subtree in pre-order whose top satisfies `pred`.
    pub open spec fn first_match(self, pred: spec_fn(T) -> bool) -> Option<Tree<T>>
        decreases self, 0nat,
    {
        if self.top_matches(pred) {
            Some(self)
        } else {
            match self {
                Tree::Leaf(_) => None,
                Tree::Branch { children, .. } => Self::first_match_in(children, pred),
                Tree::Root(children) => Self::first_match_in(children, pred),
            }
        }
    }

    /// The first match among `trees`, each searched in pre-order, from left to right.
    pub open spec fn first_match_in(trees: Seq<Tree<T>>, pred: spec_fn(T) -> bool) -> Option<Tree<T>>
        decreases trees, trees.len(),
    {
        if trees.len() == 0 {
            None
        } else {
            match trees[0].first_match(pred) {
                Some(found) => Some(found),
                None => Self::first_match_in(trees.drop_first(), pred),
            }
        }
    }

    /// The tree in which the first match of `pred` is replaced by `with`;
    /// the tree itself where nothing matches.
    pub open spec fn replace_first(self, pred: spec_fn(T) -> bool, with: Tree<T>) -> Tree<T>
        decreases self, 0nat,
    {
        if self.top_matches(pred) {
            with
        } else {
            match self {
                Tree::Leaf(_) => self,
                Tree::Branch { data, children } => Tree::Branch {
                    data,
                    children: Self::replace_first_in(children, pred, with),
                },
                Tree::Root(children) => Tree::Root(Self::replace_first_in(children, pred, with)),
            }
        }
    }

    /// `trees` in which the first match of `pred` is replaced by `with`.
    pub open spec fn replace_first_in(trees: Seq<Tree<T>>, pred: spec_fn(T) -> bool, with: Tree<T>) -> Seq<Tree<T>>
        decreases trees, trees.len(),
    {
        if trees.len() == 0 {
            trees
        } else if trees[0].first_match(pred) is Some {
            trees.update(0, trees[0].replace_first(pred, with))
        } else {
            seq![trees[0]] + Self::replace_first_in(trees.drop_first(), pred, with)
        }
    }

    /// Where the trees before position `at` hold no match and the one at `at`
    /// does, the first match among all of them is the one found there.
    pub proof fn lemma_first_match_at(trees: Seq<Tree<T>>, pred: spec_fn(T) -> bool, at: int)
        requires
            0 <= at < trees.len(),
            forall|j: int| 0 <= j < at ==> (#[trigger] trees[j]).first_match(pred) is None,
            trees[at].first_match(pred) is Some,
        ensures
            Self::first_match_in(trees, pred) == trees[at].first_match(pred),
            forall|with: Tree<T>| #[trigger]
                Self::replace_first_in(trees, pred, with) == trees.update(
                    at,
                    trees[at].replace_first(pred, with),
                ),
        decreases at,
    {
        if at > 0 {
            let rest = trees.drop_first();
            assert forall|j: int| 0 <= j < at - 1 implies (#[trigger] rest[j]).first_match(
                pred,
            ) is None by {
                assert(rest[j] == trees[j + 1]);
            }
            Self::lemma_first_match_at(rest, pred, at - 1);
            assert(trees[0].first_match(pred) is None);
            assert forall|with: Tree<T>| #[trigger]
                Self::replace_first_in(trees, pred, with) == trees.update(
                    at,
                    trees[at].replace_first(pred, with),
                ) by {
                assert(Self::replace_first_in(trees, pred, with) == seq![trees[0]]
                    + Self::replace_first_in(rest, pred, with));
                assert(rest[at - 1] == trees[at]);
                assert(seq![trees[0]] + rest.update(at - 1, rest[at - 1].replace_first(pred, with))
                    =~= trees.update(at, trees[at].replace_first(pred, with)));
            }
        }
    }

    /// Where none of the trees holds a match, there is no first match, and
    /// replacing it changes nothing.
    pub proof fn lemma_no_match_in(trees: Seq<Tree<T>>, pred: spec_fn(T) -> bool, with: Tree<T>)
        requires
            forall|j: int| 0 <= j < trees.len() ==> (#[trigger] trees[j]).first_match(pred) is None,
        ensures
            Self::first_match_in(trees, pred) is None,
            Self::replace_first_in(trees, pred, with) == trees,
        decreases trees.len(),
    {
        if trees.len() > 0 {
            let rest = trees.drop_first();
            assert forall|j: int| 0 <= j < rest.len() implies (#[trigger] rest[j]).first_match(
                pred,
            ) is None by {
                assert(rest[j] == trees[j + 1]);
            }
            Self::lemma_no_match_in(rest, pred, with);
            assert(trees[0].first_match(pred) is None);
            assert(seq![trees[0]] + rest =~= trees);
        }
    }

    /// The tree in normal form: every branch without children is a leaf, and a
    /// root with exactly one child is that child, normalised in turn.
    pub open spec fn normalized(self) -> Tree<T>
        decreases self, 0nat,
    {
        match self {
            Tree::Root(children) => if children.len() == 1 {
                children[0].normalized()
            } else {
                Tree::Root(Self::normalized_all(children))
            },
            Tree::Branch { data, children } => if children.len() == 0 {
                Tree::Leaf(data)
            } else {
                Tree::Branch { data, children: Self::normalized_all(children) }
            },
            Tree::Leaf(_) => self,
        }
    }

    /// Each of `trees` in normal form.
    pub open spec fn normalized_all(trees: Seq<Tree<T>>) -> Seq<Tree<T>>
        decreases trees, 1nat,
    {
        Seq::new(
            trees.len(),
            |i: int|
                if 0 <= i < trees.len() {
                    trees[i].normalized()
                } else {
                    Tree::Root(Seq::empty())
                },
        )
    }

    /// Whether the tree is in normal form.
    pub open spec fn is_normal(self) -> bool {
        self.normalized() == self
    }

    /// Normalising is idempotent: a normalised tree is in normal form.
    pub proof fn lemma_normalized_idempotent(self)
        ensures
            self.normalized().is_normal(),
        decreases self, 0nat,
    {
        match self {
            Tree::Root(children) => {
                if children.len() == 1 {
                    children[0].lemma_normalized_idempotent();
                } else {
                    Self::lemma_normalized_all_idempotent(children);
                }
            },
            Tree::Branch { data, children } => {
                if children.len() != 0 {
                    Self::lemma_normalized_all_idempotent(children);
                }
            },
            Tree::Leaf(_) => {},
        }
    }

    proof fn lemma_normalized_all_idempotent(trees: Seq<Tree<T>>)
        ensures
            Self::normalized_all(Self::normalized_all(trees)) == Self::normalized_all(trees),
        decreases trees, 1nat,
    {
        assert forall|i: int| 0 <= i < trees.len() implies #[trigger] Self::normalized_all(
            Self::normalized_all(trees),
        )[i] == Self::normalized_all(trees)[i] by {
            trees[i].lemma_normalized_idempotent();
        }
        assert(Self::normalized_all(Self::normalized_all(trees)) =~= Self::normalized_all(trees));
    }
}

/// A node of a tree: a branch with data and children, a root with children
/// only, or a leaf with data only.
#[derive(Debug, PartialEq)]
pub enum Node<T> {
    Branch { data: T, children: Vec<Node<T>> },
    Root(Vec<Node<T>>),
    Leaf(T),
}

impl<T: View> View for Node<T> {
    type V = Tree<T::V>;

    open spec fn view(&self) -> Tree<T::V>
        decreases self, 0nat,
    {
        match self {
            Node::Branch { data, children } => Tree::Branch { data: data@, children: views(children@) },
            Node::Root(children) => Tree::Root(views(children@)),
            Node::Leaf(data) => Tree::Leaf(data@),
        }
    }
}

impl<T: Default + View> Default for Node<T> {
    /// A leaf that holds the default data.
    fn default() -> (node: Self)
        ensures
            node@ is Leaf,
    {
        Node::Leaf(T::default())
    }
}

impl<T: View> From<T> for Node<T> {
    fn from(value: T) -> (node: Self) {
        Node::Leaf(value)
    }
}

impl<T: View> vstd::std_specs::convert::FromSpecImpl<T> for Node<T> {
    open spec fn obeys_from_spec() -> bool {
        true
    }

    open spec fn from_spec(value: T) -> Self {
        Node::Leaf(value)
    }
}

/// The shapes of a sequence of nodes.
pub open spec fn views<T: View>(nodes: Seq<Node<T>>) -> Seq<Tree<T::V>>
    decreases nodes, 1nat,
{
    Seq::new(
        nodes.len(),
        |i: int|
            if 0 <= i < nodes.len() {
                nodes[i]@
            } else {
                Tree::Root(Seq::empty())
            },
    )
}

impl<T: View> Node<T> {
    /// A branch with the given data and children.
    pub fn branch(data: T, children: Vec<Node<T>>) -> (node: Self)
        ensures
            node@ == (Tree::Branch { data: data@, children: views(children@) }),
    {
        let node = Node::Branch { data, children };
        assert(node@.children() =~= views(children@));
        node
    }

    /// A root without children.
    pub fn empty_root() -> (node: Self)
        ensures
            node@ == Tree::<T::V>::Root(Seq::empty()),
    {
        let node = Node::Root(Vec::new());
        assert(node@.children() =~= Seq::empty());
        node
    }

    /// A branch without children.
    pub fn empty_branch(data: T) -> (node: Self)
        ensures
            node@ == (Tree::Branch { data: data@, children: Seq::empty() }),
    {
        let node = Node::Branch { data, children: Vec::new() };
        assert(node@.children() =~= Seq::empty());
        node
    }

    /// A leaf with the given data.
    pub fn leaf(data: T) -> (node: Self)
        ensures
            node@ == Tree::Leaf(data@),
    {
        Node::Leaf(data)
    }

    /// The data of a branch or a leaf.
    pub fn data(&self) -> (data: Option<&T>)
        ensures
            match data {
                Some(d) => self@.data() == Some(d@),
                None => self@.data() is None,
            },
    {
        match self {
            Node::Branch { data, .. } => Some(data),
            Node::Leaf(data) => Some(data),
            Node::Root(_) => None,
        }
    }

    /// The data of a branch or a leaf, by value.
    pub fn into_data(self) -> (data: Option<T>)
        ensures
            match data {
                Some(d) => self@.data() == Some(d@),
                None => self@.data() is None,
            },
    {
        match self {
            Node::Branch { data, .. } => Some(data),
            Node::Leaf(data) => Some(data),
            Node::Root(_) => None,
        }
    }

    /// Appends `node` to the children of a root or a branch and says whether it did.
    pub fn insert(&mut self, node: Node<T>) -> (inserted: bool)
        ensures
            inserted == !(old(self)@ is Leaf),
            final(self)@ == old(self)@.with_child(node@),
    {
        match self {
            Node::Root(children) => {
                let ghost before = children@;
                children.push(node);
                assert(views(children@) =~= views(before).push(node@));
                true
            },
            Node::Branch { children, .. } => {
                let ghost before = children@;
                children.push(node);
                assert(views(children@) =~= views(before).push(node@));
                true
            },
            Node::Leaf(_) => false,
        }
    }

    /// The data of a branch or a leaf, to change in place.
    pub fn data_mut(&mut self) -> (data: Option<&mut T>)
        ensures
            match data {
                Some(d) => old(self)@.data() == Some(d@) && final(self)@ == old(self)@.with_data(
                    final(d)@,
                ),
                None => old(self)@.data() is None && final(self)@ == old(self)@,
            },
    {
        match self {
            Node::Branch { data, .. } => Some(data),
            Node::Leaf(data) => Some(data),
            Node::Root(_) => None,
        }
    }

    /// Turns every branch without children into a leaf and unwraps a root with
    /// a single child, throughout the tree.
    pub fn create_leaves(self) -> (node: Self)
        ensures
            node@ == self@.normalized(),
        decreases self, 0nat,
    {
        match self {
            Node::Root(mut children) => {
                if children.len() == 1 {
                    let child = children.remove(0);
                    child.create_leaves()
                } else {
                    Node::Root(Self::create_leaves_all(children))
                }
            },
            Node::Branch { data, children } => {
                if children.is_empty() {
                    Node::Leaf(data)
                } else {
                    Node::Branch { data, children: Self::create_leaves_all(children) }
                }
            },
            Node::Leaf(data) => Node::Leaf(data),
        }
    }

    fn create_leaves_all(nodes: Vec<Node<T>>) -> (out: Vec<Node<T>>)
        ensures
            views(out@) == Tree::normalized_all(views(nodes@)),
        decreases nodes@, 1nat,
    {
        let ghost all = nodes@;
        let mut rest = nodes;
        let mut out: Vec<Node<T>> = Vec::new();
        while rest.len() > 0
            invariant
                all == nodes@,
                out@.len() + rest@.len() == all.len(),
                rest@ == all.skip(out@.len() as int),
                forall|i: int| 0 <= i < out@.len() ==> (#[trigger] out@[i])@ == all[i]@.normalized(),
            decreases rest@.len(),
        {
            let next = rest.remove(0);
            assert(next == all[out@.len() as int]);
            let done = next.create_leaves();
            out.push(done);
            assert(rest@ =~= all.skip(out@.len() as int));
        }
        assert(views(out@) =~= Tree::normalized_all(views(all)));
        out
    }

    /// The first node in pre-order whose data satisfies `predicate`.
    pub fn find<P: Find<T>>(&self, predicate: &P) -> (found: Option<&Self>)
        ensures
            match found {
                Some(node) => self@.first_match(pred_of(predicate)) == Some(node@),
                None => self@.first_match(pred_of(predicate)) is None,
            },
        decreases self,
    {
        match self {
            Node::Leaf(data) => {
                if predicate.find(data) {
                    Some(self)
                } else {
                    None
                }
            },
            Node::Branch { data, children } => {
                if predicate.find(data) {
                    Some(self)
                } else {
                    Self::find_in(children, predicate)
                }
            },
            Node::Root(children) => Self::find_in(children, predicate),
        }
    }

    fn find_in<'a, P: Find<T>>(nodes: &'a Vec<Node<T>>, predicate: &P) -> (found: Option<&'a Self>)
        ensures
            match found {
                Some(node) => Tree::first_match_in(views(nodes@), pred_of(predicate)) == Some(node@),
                None => Tree::first_match_in(views(nodes@), pred_of(predicate)) is None,
            },
        decreases nodes@,
    {
        let mut i: usize = 0;
        while i < nodes.len()
            invariant
                0 <= i <= nodes.len(),
                forall|j: int| 0 <= j < i ==> (#[trigger] views(nodes@)[j]).first_match(pred_of(predicate)) is None,
            decreases nodes.len() - i,
        {
            if let Some(found) = nodes[i].find(predicate) {
                proof {
                    Tree::lemma_first_match_at(views(nodes@), pred_of(predicate), i as int);
                }
                return Some(found);
            }
            i += 1;
        }
        proof {
            Tree::lemma_no_match_in(views(nodes@), pred_of(predicate), Tree::Root(Seq::empty()));
        }
        None
    }

    /// The first node in pre-order whose data satisfies `predicate`, to change in place.
    pub fn find_mut<P: Find<T>>(&mut self, predicate: &P) -> (found: Option<&mut Self>)
        ensures
            match found {
                Some(node) => old(self)@.first_match(pred_of(predicate)) == Some(node@) && final(self)@
                    == old(self)@.replace_first(pred_of(predicate), final(node)@),
                None => old(self)@.first_match(pred_of(predicate)) is None && final(self)@ == old(self)@,
            },
        decreases *old(self),
    {
        let at_top = match self.data() {
            Some(data) => predicate.find(data),
            None => false,
        };
        if at_top {
            return Some(self);
        }
        match self {
            Node::Leaf(_) => None,
            Node::Branch { children, .. } => Self::find_mut_in(children, predicate),
            Node::Root(children) => Self::find_mut_in(children, predicate),
        }
    }

    fn find_mut_in<'a, P: Find<T>>(nodes: &'a mut Vec<Node<T>>, predicate: &P) -> (found: Option<
        &'a mut Self,
    >)
        ensures
            match found {
                Some(node) => Tree::first_match_in(views(old(nodes)@), pred_of(predicate)) == Some(node@)
                    && views(final(nodes)@) == Tree::replace_first_in(
                    views(old(nodes)@),
                    pred_of(predicate),
                    final(node)@,
                ),
                None => Tree::first_match_in(views(old(nodes)@), pred_of(predicate)) is None && views(
                    final(nodes)@,
                ) == views(old(nodes)@),
            },
        decreases old(nodes)@,
    {
        let mut i: usize = 0;
        while i < nodes.len()
            invariant
                0 <= i <= nodes.len(),
                nodes@ == old(nodes)@,
                forall|j: int| 0 <= j < i ==> (#[trigger] views(nodes@)[j]).first_match(pred_of(predicate)) is None,
            decreases nodes.len() - i,
        {
            if nodes[i].find(predicate).is_some() {
                proof {
                    Tree::lemma_first_match_at(views(nodes@), pred_of(predicate), i as int);
                    assert forall|c: Node<T>| #[trigger]
                        views(nodes@.update(i as int, c)) == views(nodes@).update(i as int, c@) by {
                        assert(views(nodes@.update(i as int, c)) =~= views(nodes@).update(
                            i as int,
                            c@,
                        ));
                    }
                }
                let child = &mut nodes[i];
                return child.find_mut(predicate);
            }
            i += 1;
        }
        proof {
            Tree::lemma_no_match_in(views(nodes@), pred_of(predicate), Tree::Root(Seq::empty()));
        }
        None
    }

    /// The first node in pre-order whose data satisfies `predicate`, by value.
    pub fn into_find<P: Find<T>>(self, predicate: &P) -> (found: Option<Self>)
        ensures
            match found {
                Some(node) => self@.first_match(pred_of(predicate)) == Some(node@),
                None => self@.first_match(pred_of(predicate)) is None,
            },
        decreases self,
    {
        let at_top = match self.data() {
            Some(data) => predicate.find(data),
            None => false,
        };
        if at_top {
            return Some(self);
        }
        match self {
            Node::Leaf(_) => None,
            Node::Branch { children, .. } => Self::into_find_in(children, predicate),
            Node::Root(children) => Self::into_find_in(children, predicate),
        }
    }

    fn into_find_in<P: Find<T>>(nodes: Vec<Node<T>>, predicate: &P) -> (found: Option<Self>)
        ensures
            match found {
                Some(node) => Tree::first_match_in(views(nodes@), pred_of(predicate)) == Some(node@),
                None => Tree::first_match_in(views(nodes@), pred_of(predicate)) is None,
            },
        decreases nodes@,
    {
        let mut rest = nodes;
        let mut i: usize = 0;
        while i < rest.len()
            invariant
                0 <= i <= rest.len(),
                rest@ == nodes@,
                forall|j: int| 0 <= j < i ==> (#[trigger] views(nodes@)[j]).first_match(pred_of(predicate)) is None,
            decreases rest.len() - i,
        {
            if rest[i].find(predicate).is_some() {
                proof {
                    Tree::lemma_first_match_at(views(nodes@), pred_of(predicate), i as int);
                }
                let child = rest.remove(i);
                return child.into_find(predicate);
            }
            i += 1;
        }
        proof {
            Tree::lemma_no_match_in(views(nodes@), pred_of(predicate), Tree::Root(Seq::empty()));
        }
        None
    }
}

} // verus!
