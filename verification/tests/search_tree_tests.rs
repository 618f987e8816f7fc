use jackal::{Edge, GameState, Move, NodeIndex, SearchTree};

#[test]
fn search_tree_starts_with_a_root() {
    let tree = SearchTree::new(1, 232);
    assert_eq!(tree.current_segment().size(), 1048576 / 232 / 4);
    assert_eq!(tree.root_index(), NodeIndex::from_parts(0, 0));
    assert_eq!(tree.current_segment().len(), 1);
    assert_eq!(tree.node(tree.root_index()).state(), GameState::Unresolved);
    assert_eq!(tree.root_edge().visits(), 0);
    assert_eq!(tree.root_edge().policy(), 0);
}

#[test]
fn search_tree_without_room_has_a_null_root() {
    let tree = SearchTree::new(0, 232);
    assert_eq!(tree.current_segment().size(), 0);
    assert!(tree.root_index().is_null());
}

#[test]
fn search_tree_spawns_and_advances() {
    // two nodes per segment
    let mut tree = SearchTree::new(1, 1024 * 1024 / 8);
    assert_eq!(tree.current_segment().size(), 2);
    let root = tree.root_index();
    let a = tree.spawn_node(GameState::Drawn);
    assert_eq!(a, NodeIndex::from_parts(1, 0));
    assert!(tree.current_segment().is_full());
    let b = tree.spawn_node(GameState::Lost(2));
    // the first segment was full: `b` comes from the second one
    assert_eq!(b, NodeIndex::from_parts(0, 1));
    assert_eq!(tree.node(b).state(), GameState::Lost(2));
    assert_eq!(tree.node(a).state(), GameState::Drawn);
    assert_eq!(tree.node(root).state(), GameState::Unresolved);
    tree.advance_segments();
    assert_eq!(tree.current_segment().len(), 0);
    assert_eq!(tree.spawn_node(GameState::Unresolved), NodeIndex::from_parts(0, 2));
}

#[test]
fn search_tree_advance_nulls_edges_into_next_segment() {
    let mut tree = SearchTree::new(1, 1024 * 1024 / 8);
    let root = tree.root_index();
    tree.node_mut(root).actions_mut().push(Edge::new(NodeIndex::from_parts(1, 1), Move::from_raw(5), 7));
    tree.node_mut(root).actions_mut().push(Edge::new(NodeIndex::from_parts(1, 2), Move::from_raw(6), 8));
    tree.advance_segments();
    assert!(tree.get_edge_clone(root, 0).node_index().is_null());
    assert_eq!(tree.get_edge_clone(root, 0).mv().get_raw(), 5);
    assert_eq!(tree.get_edge_clone(root, 1).node_index(), NodeIndex::from_parts(1, 2));
}

#[test]
fn search_tree_moves_used_nodes_forward() {
    let mut tree = SearchTree::new(1, 1024 * 1024 / 16);
    assert_eq!(tree.current_segment().size(), 4);
    let root = tree.root_index();
    let child = tree.spawn_node(GameState::Won(3));
    tree.node_mut(root).actions_mut().push(Edge::new(child, Move::from_raw(9), 100));
    tree.node_mut(child).actions_mut().push(Edge::default());
    tree.advance_segments();
    // the root moves into the current segment with its edges, the root edge follows
    let new_root = tree.mark_as_used::<true>(root, NodeIndex::null(), 0);
    assert_eq!(new_root, NodeIndex::from_parts(0, 1));
    assert_eq!(tree.root_index(), new_root);
    assert_eq!(tree.node(new_root).actions().len(), 1);
    assert!(!tree.node(root).has_children());
    // a node already in the current segment stays where it is
    assert_eq!(tree.mark_as_used::<true>(new_root, NodeIndex::null(), 0), new_root);
    // the child moves too, and the root's edge follows it
    let moved = tree.mark_as_used::<false>(child, new_root, 0);
    assert_eq!(moved, NodeIndex::from_parts(1, 1));
    assert_eq!(tree.node(moved).state(), GameState::Won(3));
    assert_eq!(tree.node(moved).actions().len(), 1);
    assert_eq!(tree.get_edge_clone(new_root, 0).node_index(), moved);
    assert_eq!(tree.get_edge_clone(new_root, 0).mv().get_raw(), 9);
}

#[test]
fn search_tree_clear_and_mates() {
    let mut tree = SearchTree::new(1, 232);
    let root = tree.root_index();
    let child = tree.spawn_node(GameState::Unresolved);
    tree.backpropagate_mates(child, GameState::Lost(0));
    assert_eq!(tree.node(child).state(), GameState::Won(1));
    tree.node_mut(root).actions_mut().push(Edge::new(child, Move::from_raw(1), 0));
    tree.backpropagate_mates(root, GameState::Won(1));
    assert_eq!(tree.node(root).state(), GameState::Lost(2));
    tree.clear();
    assert_eq!(tree.root_index(), NodeIndex::from_parts(0, 0));
    assert_eq!(tree.current_segment().len(), 1);
    assert_eq!(tree.node(root).state(), GameState::Unresolved);
    assert!(!tree.node(root).has_children());
    tree.resize_tree(1, 1024 * 1024 / 8);
    assert_eq!(tree.current_segment().size(), 2);
    assert_eq!(tree.current_segment().len(), 1);
    assert_eq!(tree.root_index(), NodeIndex::from_parts(0, 0));
    tree.resize_tree(2, 232);
    assert_eq!(tree.current_segment().size(), 2 * 1048576 / 232 / 4);
    assert_eq!(tree.root_edge().visits(), 0);
}

#[test]
fn search_tree_mark_as_used_keeps_current_segment() {
    let mut tree = SearchTree::new(1, 1024 * 1024 / 16);
    let root = tree.root_index();
    let child = tree.spawn_node(GameState::Drawn);
    tree.node_mut(root).actions_mut().push(Edge::new(child, Move::from_raw(3), 50));
    tree.advance_segments();
    // not full: the moved node lands in the current segment, which stays current
    let new_root = tree.mark_as_used::<true>(root, NodeIndex::null(), 0);
    assert_eq!(new_root.segment(), 1);
    assert_eq!(tree.current_segment().len(), 1);
    let moved = tree.mark_as_used::<false>(child, new_root, 0);
    assert_eq!(moved, NodeIndex::from_parts(1, 1));
    assert_eq!(tree.root_edge().policy(), 0);
    assert_eq!(tree.root_index(), new_root);
    assert_eq!(tree.node(child).state(), GameState::Drawn);
    assert!(!tree.node(child).has_children());
}
