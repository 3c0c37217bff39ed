use dust_mail::tree::{Find, Node};

struct GreaterThanThree;

impl Find<i32> for GreaterThanThree {
    fn find(&self, item: &i32) -> bool {
        *item > 3
    }
}

struct GreaterThanFour;

impl Find<i32> for GreaterThanFour {
    fn find(&self, item: &i32) -> bool {
        *item > 4
    }
}

struct Equals(i32);

impl Find<i32> for Equals {
    fn find(&self, item: &i32) -> bool {
        *item == self.0
    }
}

#[test]
fn test_find() {
    let test_tree = Node::branch(1, vec![2.into(), 3.into(), Node::branch(4, Vec::new())]);

    assert_eq!(Some(&4), test_tree.find(&GreaterThanThree).unwrap().data());

    assert_eq!(None, test_tree.find(&GreaterThanFour));
}

#[test]
fn insert_appends_to_root_and_branch_only() {
    let mut root: Node<i32> = Node::empty_root();
    assert!(root.insert(Node::leaf(1)));
    assert!(root.insert(Node::leaf(2)));
    assert_eq!(root, Node::Root(vec![Node::Leaf(1), Node::Leaf(2)]));

    let mut branch = Node::empty_branch(7);
    assert!(branch.insert(Node::leaf(8)));
    assert_eq!(branch, Node::branch(7, vec![Node::Leaf(8)]));

    let mut leaf = Node::leaf(3);
    assert!(!leaf.insert(Node::leaf(4)));
    assert_eq!(leaf, Node::Leaf(3));
}

#[test]
fn data_is_absent_on_a_root() {
    let root: Node<i32> = Node::empty_root();
    assert_eq!(root.data(), None);
    assert_eq!(Node::leaf(5).data(), Some(&5));
    assert_eq!(Node::empty_branch(6).into_data(), Some(6));
    let mut branch = Node::empty_branch(6);
    *branch.data_mut().unwrap() = 9;
    assert_eq!(branch.data(), Some(&9));
    let mut root: Node<i32> = Node::empty_root();
    assert!(root.data_mut().is_none());
}

#[test]
fn find_is_depth_first_and_pre_order() {
    let tree = Node::Root(vec![
        Node::branch(1, vec![Node::branch(2, vec![Node::leaf(10)]), Node::leaf(11)]),
        Node::leaf(12),
    ]);
    // 10 stands deeper than 11 and 12, but before them in pre-order.
    let found = tree.find(&GreaterThanFour).unwrap();
    assert_eq!(found.data(), Some(&10));
    // A branch that matches is found before its children.
    let tree = Node::branch(5, vec![Node::leaf(6)]);
    assert_eq!(tree.find(&GreaterThanFour).unwrap().data(), Some(&5));
    // The node is returned with what stands below it.
    assert_eq!(tree.find(&GreaterThanFour).unwrap(), &tree);
}

#[test]
fn root_itself_is_never_a_match() {
    let root: Node<i32> = Node::empty_root();
    assert!(root.find(&GreaterThanThree).is_none());
    assert!(root.into_find(&GreaterThanThree).is_none());
}

#[test]
fn find_mut_changes_the_first_match_in_place() {
    let mut tree = Node::Root(vec![
        Node::branch(1, vec![Node::leaf(2)]),
        Node::branch(2, Vec::new()),
    ]);
    {
        let found = tree.find_mut(&Equals(2)).unwrap();
        *found.data_mut().unwrap() = 20;
    }
    assert_eq!(
        tree,
        Node::Root(vec![
            Node::branch(1, vec![Node::leaf(20)]),
            Node::branch(2, Vec::new()),
        ])
    );
    assert!(tree.find_mut(&Equals(99)).is_none());
    let found = tree.find_mut(&Equals(1)).unwrap();
    assert!(found.insert(Node::leaf(3)));
    assert_eq!(
        tree,
        Node::Root(vec![
            Node::branch(1, vec![Node::leaf(20), Node::leaf(3)]),
            Node::branch(2, Vec::new()),
        ])
    );
}

#[test]
fn into_find_gives_the_first_match_by_value() {
    let tree = Node::Root(vec![
        Node::leaf(1),
        Node::branch(4, vec![Node::leaf(5)]),
        Node::leaf(6),
    ]);
    assert_eq!(
        tree.into_find(&GreaterThanThree),
        Some(Node::branch(4, vec![Node::leaf(5)]))
    );
}

#[test]
fn create_leaves_collapses_empty_branches_and_single_roots() {
    let tree = Node::Root(vec![
        Node::branch(1, vec![Node::branch(2, Vec::new())]),
        Node::branch(3, Vec::new()),
    ]);
    let normal = tree.create_leaves();
    assert_eq!(
        normal,
        Node::Root(vec![Node::branch(1, vec![Node::Leaf(2)]), Node::Leaf(3)])
    );

    let single = Node::Root(vec![Node::Root(vec![Node::branch(1, Vec::new())])]);
    assert_eq!(single.create_leaves(), Node::Leaf(1));

    let empty: Node<i32> = Node::empty_root();
    assert_eq!(empty.create_leaves(), Node::Root(Vec::new()));
}

#[test]
fn create_leaves_twice_is_create_leaves_once() {
    let build = || {
        Node::Root(vec![
            Node::branch(1, vec![Node::branch(2, Vec::new()), Node::Root(vec![Node::leaf(9)])]),
            Node::branch(3, Vec::new()),
            Node::Root(Vec::new()),
        ])
    };
    let once = build().create_leaves();
    let twice = build().create_leaves().create_leaves();
    assert_eq!(once, twice);
}

#[test]
fn default_node_is_a_leaf() {
    let node: Node<i32> = Node::default();
    assert_eq!(node, Node::Leaf(0));
}
