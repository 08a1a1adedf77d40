use mm_client::providers::{decode_orderbook_side, slab_from_page};
use mm_client::serum_slab::{AnyNode, FeeTier, InnerNode, LeafNode, Slab, SlabView, TAG_INNER, TAG_LEAF};

fn header(root: u32, leaf_count: u64, node_count: u64) -> Vec<u8> {
    let mut b = Vec::new();
    b.extend_from_slice(&node_count.to_le_bytes());
    b.extend_from_slice(&0u64.to_le_bytes());
    b.extend_from_slice(&0u32.to_le_bytes());
    b.extend_from_slice(&root.to_le_bytes());
    b.extend_from_slice(&leaf_count.to_le_bytes());
    b
}

fn inner(prefix_len: u32, key: u128, c0: u32, c1: u32) -> Vec<u8> {
    let mut b = Vec::new();
    b.extend_from_slice(&1u32.to_le_bytes());
    b.extend_from_slice(&prefix_len.to_le_bytes());
    b.extend_from_slice(&key.to_le_bytes());
    b.extend_from_slice(&c0.to_le_bytes());
    b.extend_from_slice(&c1.to_le_bytes());
    b.extend_from_slice(&[0u8; 40]);
    b
}

fn leaf(owner_slot: u8, key: u128, quantity: u64, client_order_id: u64) -> Vec<u8> {
    let mut b = Vec::new();
    b.extend_from_slice(&2u32.to_le_bytes());
    b.push(owner_slot);
    b.push(0);
    b.extend_from_slice(&[0u8; 2]);
    b.extend_from_slice(&key.to_le_bytes());
    b.extend_from_slice(&[7u8; 32]);
    b.extend_from_slice(&quantity.to_le_bytes());
    b.extend_from_slice(&client_order_id.to_le_bytes());
    b
}

fn key(price: u64, seq: u64) -> u128 {
    ((price as u128) << 64) | seq as u128
}

/// Three leaves at prices 100, 101 and 102 under two inner nodes.
fn three_leaf_slab() -> Vec<u8> {
    let mut b = header(0, 3, 5);
    b.extend(inner(0, 0, 1, 2));
    b.extend(leaf(0, key(100, 1), 10, 11));
    b.extend(inner(0, 0, 3, 4));
    b.extend(leaf(1, key(101, 2), 20, 22));
    b.extend(leaf(2, key(102, 3), 30, 33));
    b
}

#[test]
fn depth_ascending_is_sorted_by_price() {
    let slab = Slab::new(three_leaf_slab());
    let rows = slab.get_depth(25, 1, 1, true);
    let prices: Vec<u64> = rows.iter().map(|r| r.price).collect();
    assert_eq!(prices, vec![100, 101, 102]);
}

#[test]
fn depth_descending_is_sorted_by_price() {
    let slab = Slab::new(three_leaf_slab());
    let rows = slab.get_depth(25, 1, 1, false);
    let prices: Vec<u64> = rows.iter().map(|r| r.price).collect();
    assert_eq!(prices, vec![102, 101, 100]);
}

#[test]
fn depth_length_is_min_of_depth_and_leaf_count() {
    let slab = Slab::new(three_leaf_slab());
    assert_eq!(slab.get_depth(2, 1, 1, true).len(), 2);
    assert_eq!(slab.get_depth(3, 1, 1, false).len(), 3);
    assert_eq!(slab.get_depth(10, 1, 1, true).len(), 3);
    assert_eq!(slab.get_depth(1, 1, 1, false)[0].price, 102);
}

#[test]
fn depth_zero_gives_nothing() {
    let slab = Slab::new(three_leaf_slab());
    assert!(slab.get_depth(0, 1, 1, true).is_empty());
}

#[test]
fn decoding_twice_gives_identical_rows() {
    let slab = Slab::new(three_leaf_slab());
    let a = slab.get_depth(25, 10, 2, true);
    let b = slab.get_depth(25, 10, 2, true);
    assert_eq!(a, b);
    let again = Slab::new(three_leaf_slab()).get_depth(25, 10, 2, true);
    assert_eq!(a, again);
}

#[test]
fn rows_are_converted_to_native_units() {
    let slab = Slab::new(three_leaf_slab());
    let rows = slab.get_depth(25, 10, 2, true);
    assert_eq!(rows[0].price, 500);
    assert_eq!(rows[0].quantity, 20);
    assert_eq!(rows[0].order_id, key(100, 1));
    assert_eq!(rows[0].client_order_id, 11);
    assert_eq!(rows[2].price, 510);
    assert_eq!(rows[2].quantity, 60);
}

#[test]
fn price_conversion_rounds_down() {
    let slab = Slab::new(three_leaf_slab());
    let rows = slab.get_depth(1, 1, 3, true);
    assert_eq!(rows[0].price, 33);
    assert_eq!(rows[0].quantity, 30);
}

#[test]
fn empty_tree_gives_nothing() {
    let mut b = header(0, 0, 0);
    b.extend(leaf(0, key(100, 1), 10, 11));
    assert!(Slab::new(b).get_depth(25, 1, 1, true).is_empty());
}

#[test]
fn bad_tag_gives_nothing() {
    let mut b = header(0, 1, 1);
    let mut node = leaf(0, key(100, 1), 10, 11);
    node[0] = 3;
    b.extend(node);
    assert!(Slab::new(b).get_depth(25, 1, 1, true).is_empty());
}

#[test]
fn child_out_of_range_gives_nothing() {
    let mut b = header(0, 2, 2);
    b.extend(inner(0, 0, 1, 9));
    b.extend(leaf(0, key(100, 1), 10, 11));
    assert!(Slab::new(b.clone()).get_depth(25, 1, 1, true).is_empty());
    // the walk stops before it reaches the broken child
    assert_eq!(Slab::new(b).get_depth(1, 1, 1, true).len(), 1);
}

#[test]
fn cycle_gives_nothing() {
    let mut b = header(0, 2, 1);
    b.extend(inner(0, 0, 0, 0));
    assert!(Slab::new(b).get_depth(25, 1, 1, true).is_empty());
}

#[test]
fn short_page_gives_nothing() {
    assert!(Slab::new(vec![0u8; 10]).get_depth(25, 1, 1, true).is_empty());
    assert!(Slab::new(Vec::new()).get_depth(25, 1, 1, false).is_empty());
}

#[test]
fn zero_price_leaf_gives_nothing() {
    let mut b = header(0, 1, 1);
    b.extend(leaf(0, 5, 10, 11));
    assert!(Slab::new(b).get_depth(25, 1, 1, true).is_empty());
}

#[test]
fn overflowing_quantity_gives_nothing() {
    let mut b = header(0, 1, 1);
    b.extend(leaf(0, key(100, 1), u64::MAX, 11));
    assert!(Slab::new(b).get_depth(25, 1, 2, true).is_empty());
}

#[test]
fn trailing_bytes_are_ignored() {
    let mut b = three_leaf_slab();
    b.extend_from_slice(&[9u8; 50]);
    let slab = Slab::new(b);
    assert_eq!(slab.node_count(), 5);
    assert_eq!(slab.get_depth(25, 1, 1, true).len(), 3);
}

#[test]
fn slab_view_reads_nodes() {
    let slab = Slab::new(three_leaf_slab());
    let root: AnyNode = slab.get(0).unwrap();
    assert_eq!(root.tag, TAG_INNER);
    assert_eq!(root.children(), Some([1, 2]));
    let l: AnyNode = slab.get(3).unwrap();
    assert_eq!(l.tag, TAG_LEAF);
    let leaf = l.as_leaf().unwrap();
    assert_eq!(leaf.price(), 101);
    assert_eq!(leaf.quantity(), 20);
    assert_eq!(leaf.client_order_id(), 22);
    assert_eq!(leaf.owner_slot(), 1);
    assert_eq!(leaf.owner(), [0x0707070707070707u64; 4]);
    assert!(l.as_inner().is_none());
    assert!(slab.get(5).is_none());
    let header = slab.header().unwrap();
    assert_eq!(header.leaf_count, 3);
    assert_eq!(header.root_node, 0);
    assert_eq!(slab.root(), Some(0));
}

#[test]
fn leaf_node_accessors() {
    let mut l = LeafNode::new(4, key(250, 9), [1, 2, 3, 4], 77, FeeTier::SRM3, 123);
    assert_eq!(l.price(), 250);
    assert_eq!(l.order_id(), key(250, 9));
    assert_eq!(l.quantity(), 77);
    assert_eq!(l.owner(), [1, 2, 3, 4]);
    assert_eq!(l.owner_slot(), 4);
    assert_eq!(l.client_order_id(), 123);
    l.set_quantity(5);
    assert_eq!(l.quantity(), 5);
    assert_eq!(l.fee_tier, 2);
}

#[test]
fn fee_tier_codes_round_trip() {
    assert_eq!(FeeTier::Stable.to_u8(), 7);
    assert_eq!(FeeTier::from_u8(6), Some(FeeTier::MSRM));
    assert_eq!(FeeTier::from_u8(8), None);
}

#[test]
fn walk_down_follows_the_critical_bit() {
    let node = InnerNode { tag: 1, prefix_len: 0, key: 0, children: [5, 6] };
    assert_eq!(node.walk_down(1u128 << 127), (6, true));
    assert_eq!(node.walk_down(1), (5, false));
    let deep = InnerNode { tag: 1, prefix_len: 127, key: 0, children: [5, 6] };
    assert_eq!(deep.walk_down(1), (6, true));
    assert_eq!(deep.walk_down(2), (5, false));
}

#[test]
fn orderbook_page_framing_is_stripped() {
    let mut page = vec![1u8; 5];
    page.extend_from_slice(&[2u8; 8]);
    page.extend(three_leaf_slab());
    page.extend_from_slice(&[3u8; 7]);
    assert_eq!(slab_from_page(&page).bytes, three_leaf_slab());
    let rows = decode_orderbook_side(&page, 1, 1, false);
    assert_eq!(rows.iter().map(|r| r.price).collect::<Vec<_>>(), vec![102, 101, 100]);
    assert!(decode_orderbook_side(&vec![0u8; 19], 1, 1, true).is_empty());
}
