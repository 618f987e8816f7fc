use jackal::{AtomicScore, Edge, GameState, HashTable, Move, Node, NodeIndex, Tree, TreeSegment, POLICY_ONE};

#[test]
fn node_index_parts() {
    let idx = NodeIndex::from_parts(5, 1);
    assert_eq!(idx.get_raw(), (1 << 30) | 5);
    assert_eq!(idx.index(), 5);
    assert_eq!(idx.segment(), 1);
    assert!(!idx.is_null());
    // the index part keeps its low 30 bits only
    let wide = NodeIndex::from_parts(0x4000_0007, 2);
    assert_eq!(wide.index(), 7);
    assert_eq!(wide.segment(), 2);
    let null = NodeIndex::null();
    assert!(null.is_null());
    assert_eq!(null.segment(), 3);
    assert_eq!(null.index(), 0x3FFF_FFFF);
    assert_eq!(NodeIndex::from_raw(17).get_raw(), 17);
}

#[test]
fn node_index_roundtrip_for_all_segments() {
    for segment in 0u32..4 {
        for index in [0u32, 1, 977, 0x3FFF_FFFE, 0x3FFF_FFFF] {
            let idx = NodeIndex::from_parts(index, segment);
            assert_eq!(idx.index(), index);
            assert_eq!(idx.segment(), segment as usize);
            assert_eq!(idx.is_null(), segment == 3 && index == 0x3FFF_FFFF);
        }
    }
}

#[test]
fn game_state_codes() {
    assert_eq!(GameState::Unresolved.to_u16(), 0);
    assert_eq!(GameState::Drawn.to_u16(), 256);
    assert_eq!(GameState::Lost(3).to_u16(), 515);
    assert_eq!(GameState::Won(7).to_u16(), 775);
    assert_eq!(GameState::from_u16(5), GameState::Unresolved);
    assert_eq!(GameState::from_u16(1023), GameState::Won(255));
    assert_eq!(GameState::default(), GameState::Unresolved);
    assert_eq!(u16::from(GameState::Lost(9)), 521);
    let code: u16 = GameState::Won(1).into();
    assert_eq!(code, 769);
}

#[test]
fn game_state_code_roundtrip() {
    for x in 0u8..=255 {
        for state in [GameState::Unresolved, GameState::Drawn, GameState::Lost(x), GameState::Won(x)] {
            assert_eq!(GameState::from_u16(state.to_u16()), state);
        }
    }
}

#[test]
fn edge_lifecycle() {
    let mut edge = Edge::new(NodeIndex::from_parts(3, 0), Move::from_raw(77), 1000);
    assert_eq!(edge.node_index().get_raw(), 3);
    assert_eq!(edge.mv().get_raw(), 77);
    assert_eq!(edge.policy(), 1000);
    assert_eq!(edge.visits(), 0);
    edge.add_score(AtomicScore::new(10, 20), 30);
    edge.add_score(AtomicScore::new(11, 21), 31);
    assert_eq!(edge.visits(), 2);
    assert_eq!(edge.score(), AtomicScore::new(11, 21));
    assert_eq!(edge.squared_score(), 31);
    edge.set_index(NodeIndex::from_parts(9, 1));
    assert_eq!(edge.node_index(), NodeIndex::from_parts(9, 1));
    edge.update_policy(-5);
    assert_eq!(edge.policy(), -5);
    edge.clear();
    assert!(edge.node_index().is_null());
    assert_eq!(edge.mv().get_raw(), 0);
    assert_eq!(edge.policy(), POLICY_ONE);
    assert_eq!(edge.visits(), 0);
    assert_eq!(edge.score(), AtomicScore::default());
    assert_eq!(edge.squared_score(), 31);
    let default = Edge::default();
    assert!(default.node_index().is_null());
    assert_eq!(default.policy(), 32767);
}

#[test]
fn node_state_key_and_threads() {
    let mut node = Node::new(GameState::Won(4));
    assert_eq!(node.state(), GameState::Won(4));
    assert!(node.is_terminal());
    assert!(node.is_termial());
    assert!(!node.has_children());
    node.actions_mut().push(Edge::default());
    assert!(node.has_children());
    assert_eq!(node.actions().len(), 1);
    node.set_key(99);
    assert_eq!(node.key(), 99);
    node.set_state(GameState::Unresolved);
    assert!(!node.is_terminal());
    assert_eq!(node.inc_threads(), 0);
    assert_eq!(node.inc_threads(), 1);
    assert_eq!(node.dec_threads(), 2);
    assert_eq!(node.threads(), 1);
    node.set_gini_impurity(0.25f32.to_bits());
    assert_eq!(f32::from_bits(node.gini_impurity()), 0.25);
    node.replace(GameState::Drawn, 5);
    assert_eq!(node.state(), GameState::Drawn);
    assert_eq!(node.key(), 5);
    assert!(!node.has_children());
    assert_eq!(node.gini_impurity(), 0);
    assert_eq!(node.threads(), 1);
    node.clear();
    assert_eq!(node.state(), GameState::Unresolved);
    assert_eq!(node.key(), 0);
}

#[test]
fn node_threads_wrap() {
    let mut node = Node::new(GameState::Unresolved);
    assert_eq!(node.dec_threads(), 0);
    assert_eq!(node.threads(), u16::MAX);
    assert_eq!(node.inc_threads(), u16::MAX);
    assert_eq!(node.threads(), 0);
}

#[test]
fn segment_hands_out_nodes_in_order() {
    let mut segment = TreeSegment::new(2, 1);
    assert_eq!(segment.size(), 2);
    assert_eq!(segment.len(), 0);
    assert!(!segment.is_full());
    let a = segment.add(GameState::Drawn, 11).unwrap();
    let b = segment.add(GameState::Unresolved, 12).unwrap();
    assert_eq!(a, NodeIndex::from_parts(0, 1));
    assert_eq!(b, NodeIndex::from_parts(1, 1));
    assert_eq!(segment.get(a).state(), GameState::Drawn);
    assert_eq!(segment.get(b).key(), 12);
    assert!(segment.is_full());
    assert_eq!(segment.add(GameState::Drawn, 13), None);
    assert_eq!(segment.len(), 3);
    segment.clear();
    assert_eq!(segment.len(), 0);
    assert_eq!(segment.add(GameState::Lost(1), 14), Some(NodeIndex::from_parts(0, 1)));
}

#[test]
fn segment_clears_references_into_a_segment() {
    let mut segment = TreeSegment::new(1, 0);
    let idx = segment.add(GameState::Unresolved, 0).unwrap();
    let node = segment.get_mut(idx);
    node.actions_mut().push(Edge::new(NodeIndex::from_parts(4, 1), Move::from_raw(1), 10));
    node.actions_mut().push(Edge::new(NodeIndex::from_parts(4, 0), Move::from_raw(2), 20));
    node.actions_mut().push(Edge::new(NodeIndex::null(), Move::from_raw(3), 30));
    segment.clear_references(1);
    let actions = segment.get(idx).actions();
    assert!(actions[0].node_index().is_null());
    assert_eq!(actions[0].mv().get_raw(), 1);
    assert_eq!(actions[0].policy(), 10);
    assert_eq!(actions[1].node_index(), NodeIndex::from_parts(4, 0));
    assert!(actions[2].node_index().is_null());
}

#[test]
fn hash_table_store_and_probe() {
    let mut table = HashTable::new(80);
    assert_eq!(table.len(), 10);
    let key = 0x8000_0000_0000_1234u64;
    assert_eq!(table.probe(key), None);
    table.store(key, AtomicScore::new(5, 6));
    assert_eq!(table.probe(key), Some(AtomicScore::new(5, 6)));
    // same slot, different low 16 bits: no hit
    assert_eq!(table.probe(key ^ 1), None);
    // keys whose low 16 bits are zero hit an empty slot
    assert_eq!(table.probe(0x1_0000), Some(AtomicScore::default()));
    table.clear();
    assert_eq!(table.len(), 10);
    assert_eq!(table.probe(key), None);
    table.resize(16);
    assert_eq!(table.len(), 2);
}

#[test]
fn hash_table_slots_spread_over_the_table() {
    let mut table = HashTable::new(8 * 4);
    // slot = key * 4 / 2^64: the top two bits of the key
    table.store(0xC000_0000_0000_0001, AtomicScore::new(1, 1));
    table.store(0x0000_0000_0000_0002, AtomicScore::new(2, 2));
    assert_eq!(table.probe(0xC000_0000_0000_0001), Some(AtomicScore::new(1, 1)));
    assert_eq!(table.probe(0x0000_0000_0000_0002), Some(AtomicScore::new(2, 2)));
    assert_eq!(table.probe(0xC100_0000_0000_0001), Some(AtomicScore::new(1, 1)));
}

fn small_tree() -> Tree {
    let mut tree = Tree::new(1, 80);
    tree.clear();
    tree
}

#[test]
fn tree_sizes_and_clear() {
    let tree = Tree::new(1, 80);
    assert_eq!(tree.tree_size_in_bytes(), 1024 * 1024 - 80);
    assert_eq!(tree.segment_usage(0), (0, 978));
    assert_eq!(tree.segment_usage(1), (0, 978));
    assert_eq!(tree.hash_table().len(), 10);
    assert_eq!(tree.root_index(), NodeIndex::from_parts(0, 0));
    let mut tree = tree;
    tree.node_mut(NodeIndex::from_parts(0, 0)).set_key(42);
    tree.clear();
    assert_eq!(tree.segment_usage(0).0, 1);
    assert_eq!(tree.node(tree.root_index()).key(), 42);
    assert_eq!(tree.node(tree.root_index()).state(), GameState::Unresolved);
    assert!(tree.root_edge().node_index().is_null());
    assert_eq!(tree.current_segment().len(), 1);
}

#[test]
fn tree_spawns_child_for_unvisited_edge() {
    let mut tree = small_tree();
    let root = tree.root_index();
    tree.node_mut(root).actions_mut().push(Edge::new(NodeIndex::null(), Move::from_raw(9), 100));
    let child = tree.get_node_index(GameState::Drawn, 77, NodeIndex::null(), root, 0).unwrap();
    assert_eq!(child, NodeIndex::from_parts(1, 0));
    assert_eq!(tree.node(child).state(), GameState::Drawn);
    assert_eq!(tree.node(child).key(), 77);
    assert_eq!(tree.get_edge_clone(root, 0).node_index(), child);
    assert_eq!(tree.get_edge_clone(root, 0).mv().get_raw(), 9);
    // a child in the current segment is returned as it is
    assert_eq!(tree.get_node_index(GameState::Unresolved, 0, child, root, 0), Some(child));
}

#[test]
fn tree_backpropagates_mates() {
    let mut tree = small_tree();
    let root = tree.root_index();
    tree.node_mut(root).actions_mut().push(Edge::default());
    tree.node_mut(root).actions_mut().push(Edge::default());
    let a = tree.get_node_index(GameState::Won(2), 1, NodeIndex::null(), root, 0).unwrap();
    let b = tree.get_node_index(GameState::Won(6), 2, NodeIndex::null(), root, 1).unwrap();
    // a lost child makes the parent won one ply later
    tree.backpropagate_mates(a, GameState::Lost(4));
    assert_eq!(tree.node(a).state(), GameState::Won(5));
    // all children won: the parent is lost after the longest mate
    tree.backpropagate_mates(root, GameState::Won(5));
    assert_eq!(tree.node(root).state(), GameState::Lost(7));
    // a child that is not won keeps the parent as it was
    tree.node_mut(b).set_state(GameState::Drawn);
    tree.node_mut(root).set_state(GameState::Unresolved);
    tree.backpropagate_mates(root, GameState::Won(1));
    assert_eq!(tree.node(root).state(), GameState::Unresolved);
    // drawn or unresolved children change nothing
    tree.backpropagate_mates(root, GameState::Drawn);
    assert_eq!(tree.node(root).state(), GameState::Unresolved);
}

#[test]
fn tree_advances_segments() {
    let mut tree = small_tree();
    let root = tree.root_index();
    tree.node_mut(root).set_key(5);
    tree.node_mut(root).set_state(GameState::Won(3));
    tree.node_mut(root).actions_mut().push(Edge::default());
    tree.node_mut(root).actions_mut().push(Edge::default());
    let child = tree.get_node_index(GameState::Unresolved, 8, NodeIndex::null(), root, 0).unwrap();
    tree.node_mut(child).actions_mut().push(Edge::new(NodeIndex::from_parts(7, 1), Move::from_raw(3), 1));
    tree.advance_segments();
    let new_root = tree.root_index();
    assert_eq!(new_root, NodeIndex::from_parts(0, 1));
    assert_eq!(tree.segment_usage(1).0, 1);
    assert_eq!(tree.node(new_root).key(), 5);
    assert_eq!(tree.node(new_root).state(), GameState::Won(3));
    assert_eq!(tree.node(new_root).actions().len(), 2);
    // the copied edges still point into the old segment
    assert_eq!(tree.node(new_root).actions()[0].node_index(), child);
    assert!(!tree.node(root).has_children());
    // references from the old segment into the new one are gone
    assert!(tree.node(child).actions()[0].node_index().is_null());
    // an old-segment child gets copied into the current segment
    let moved = tree.get_node_index(GameState::Unresolved, 0, child, new_root, 0).unwrap();
    assert_eq!(moved, NodeIndex::from_parts(1, 1));
    assert_eq!(tree.node(moved).key(), 8);
    assert_eq!(tree.node(moved).actions().len(), 1);
    assert!(!tree.node(child).has_children());
    assert_eq!(tree.get_edge_clone(new_root, 0).node_index(), moved);
}

#[test]
fn tree_full_segment_refuses_new_nodes() {
    let mut tree = Tree::new(1, 1024 * 1024 - 536 * 2);
    assert_eq!(tree.segment_usage(0), (0, 1));
    tree.clear();
    let root = tree.root_index();
    tree.node_mut(root).actions_mut().push(Edge::default());
    assert_eq!(tree.get_node_index(GameState::Unresolved, 0, NodeIndex::null(), root, 0), None);
    assert_eq!(tree.segment_usage(0).0, 2);
    assert!(tree.get_edge_clone(root, 0).node_index().is_null());
}

#[test]
fn tree_edge_scores() {
    let mut tree = small_tree();
    let root = tree.root_index();
    tree.node_mut(root).actions_mut().push(Edge::default());
    tree.add_edge_score(root, 0, AtomicScore::new(3, 4), 5);
    let edge = tree.get_edge_clone(root, 0);
    assert_eq!(edge.visits(), 1);
    assert_eq!(edge.score(), AtomicScore::new(3, 4));
    assert_eq!(edge.squared_score(), 5);
    assert_eq!(edge.node_index(), NodeIndex::null());
    assert!(edge.mv() == Move::null());
    assert_eq!(edge.policy(), POLICY_ONE);
    tree.hash_table_mut().store(1, AtomicScore::new(1, 2));
    assert_eq!(tree.hash_table().probe(1), Some(AtomicScore::new(1, 2)));
    tree.resize_tree(1, 0);
    assert_eq!(tree.segment_usage(0), (0, 978));
    assert_eq!(tree.hash_table().len(), 0);
    assert_eq!(tree.tree_size_in_bytes(), 1024 * 1024);
    tree.resize_tree(1, 8000);
    assert_eq!(tree.hash_table().len(), 1000);
    assert_eq!(tree.tree_size_in_bytes(), 1024 * 1024 - 8000);
}

#[test]
fn edge_counts_every_visit() {
    let mut edge = Edge::new(NodeIndex::from_raw(7), Move::from_raw(12), 300);
    for k in 1..=25u32 {
        edge.add_score(AtomicScore::new(k, 2 * k), 3 * k);
        assert_eq!(edge.visits(), k);
    }
    assert_eq!(edge.node_index(), NodeIndex::from_raw(7));
    assert!(edge.mv() == Move::from_raw(12));
    assert_eq!(edge.policy(), 300);
    edge.clear();
    assert_eq!(edge.visits(), 0);
}
