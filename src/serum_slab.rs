use vstd::prelude::*;
use crate::bytes::{le_at, read_u32, read_u64, read_u128};

verus! {


/// Length of the slab header: bump index, free-list length and head, root, leaf count.
pub const SLAB_HEADER_LEN: usize = 32;

/// Every node of the slab takes this many bytes.
pub const NODE_SIZE: usize = 72;

pub const TAG_UNINITIALIZED: u32 = 0;
pub const TAG_INNER: u32 = 1;
pub const TAG_LEAF: u32 = 2;
pub const TAG_FREE: u32 = 3;
pub const TAG_LAST_FREE: u32 = 4;

/// Fee tier recorded in a leaf.
#[derive(Copy, Clone, Debug, PartialEq, Eq, Structural)]
pub enum FeeTier {
    Base,
    SRM2,
    SRM3,
    SRM4,
    SRM5,
    SRM6,
    MSRM,
    Stable,
}

pub open spec fn fee_tier_code(t: FeeTier) -> u8 {
    match t {
        FeeTier::Base => 0,
        FeeTier::SRM2 => 1,
        FeeTier::SRM3 => 2,
        FeeTier::SRM4 => 3,
        FeeTier::SRM5 => 4,
        FeeTier::SRM6 => 5,
        FeeTier::MSRM => 6,
        FeeTier::Stable => 7,
    }
}

impl FeeTier {
    pub fn to_u8(self) -> (r: u8)
        ensures
            r == fee_tier_code(self),
    {
        match self {
            FeeTier::Base => 0,
            FeeTier::SRM2 => 1,
            FeeTier::SRM3 => 2,
            FeeTier::SRM4 => 3,
            FeeTier::SRM5 => 4,
            FeeTier::SRM6 => 5,
            FeeTier::MSRM => 6,
            FeeTier::Stable => 7,
        }
    }

    pub fn from_u8(v: u8) -> (r: Option<FeeTier>)
        ensures
            r.is_some() <==> v < 8,
            r.is_some() ==> fee_tier_code(r.unwrap()) == v,
    {
        match v {
            0 => Some(FeeTier::Base),
            1 => Some(FeeTier::SRM2),
            2 => Some(FeeTier::SRM3),
            3 => Some(FeeTier::SRM4),
            4 => Some(FeeTier::SRM5),
            5 => Some(FeeTier::SRM6),
            6 => Some(FeeTier::MSRM),
            7 => Some(FeeTier::Stable),
            _ => None,
        }
    }
}

/// Failure of an operation that needs a free node.
#[derive(Copy, Clone, Debug, PartialEq, Eq, Structural)]
pub enum SlabTreeError {
    OutOfSpace,
}

/// State header of an orderbook side: initialized flag and side flags.
#[derive(Copy, Clone, Debug)]
pub struct OrderBookStateHeader {
    pub account_flags: u64,
}

/// What the traversal keeps of a leaf.
#[derive(Copy, Clone, Debug, PartialEq, Eq, Structural)]
pub struct LeafView {
    pub key: u128,
    pub quantity: u64,
    pub client_order_id: u64,
}

/// The two-way branch of the critbit tree.
#[derive(Copy, Clone, Debug)]
pub struct InnerNode {
    pub tag: u32,
    pub prefix_len: u32,
    pub key: u128,
    pub children: [u32; 2],
}

impl InnerNode {
    /// Picks the child that `search_key` belongs under: the bit of `search_key`
    /// just below the shared prefix decides.
    pub fn walk_down(&self, search_key: u128) -> (r: (u32, bool))
        requires
            self.prefix_len < 128,
        ensures
            r.1 == ((search_key >> ((127 - self.prefix_len) as u128)) & 1u128 == 1u128),
            r.0 == self.children[if r.1 { 1int } else { 0int }],
    {
        let p = self.prefix_len as u128;
        let crit_bit_mask: u128 = (1u128 << 127u128) >> p;
        let crit_bit = (search_key & crit_bit_mask) != 0;
        let shift: u128 = 127 - p;
        assert(crit_bit == ((search_key >> shift) & 1u128 == 1u128)) by (bit_vector)
            requires
                p < 128,
                shift == 127 - p,
                crit_bit_mask == (1u128 << 127u128) >> p,
                crit_bit == ((search_key & crit_bit_mask) != 0),
        ;
        let idx: usize = if crit_bit { 1 } else { 0 };
        (self.children[idx], crit_bit)
    }
}

/// An order resting in the tree.
#[derive(Copy, Clone, Debug)]
pub struct LeafNode {
    pub tag: u32,
    pub owner_slot: u8,
    pub fee_tier: u8,
    pub padding: [u8; 2],
    pub key: u128,
    pub owner: [u64; 4],
    pub quantity: u64,
    pub client_order_id: u64,
}

/// The price of an order id: its upper 64 bits.
pub open spec fn key_price(key: u128) -> nat {
    key as nat / 0x1_0000_0000_0000_0000
}

impl LeafNode {
    pub open spec fn view(&self) -> LeafView {
        LeafView { key: self.key, quantity: self.quantity, client_order_id: self.client_order_id }
    }

    pub open spec fn spec_owner_slot(&self) -> u8 {
        self.owner_slot
    }

    pub open spec fn spec_owner(&self) -> [u64; 4] {
        self.owner
    }

    pub fn new(
        owner_slot: u8,
        key: u128,
        owner: [u64; 4],
        quantity: u64,
        fee_tier: FeeTier,
        client_order_id: u64,
    ) -> (r: Self)
        ensures
            r.view() == (LeafView { key, quantity, client_order_id }),
            r.spec_owner_slot() == owner_slot,
            r.spec_owner() == owner,
            r.fee_tier == fee_tier_code(fee_tier),
            r.tag == TAG_LEAF,
    {
        LeafNode {
            tag: TAG_LEAF,
            owner_slot,
            fee_tier: fee_tier.to_u8(),
            padding: [0u8, 0u8],
            key,
            owner,
            quantity,
            client_order_id,
        }
    }

    /// The limit price in quote lots; zero is never a valid price of a resting order.
    pub fn price(&self) -> (r: u64)
        ensures
            r as nat == key_price(self.key),
    {
        let k = self.key;
        assert(k >> 64u128 == k / 0x1_0000_0000_0000_0000u128) by (bit_vector);
        (k >> 64u128) as u64
    }

    pub fn order_id(&self) -> (r: u128)
        ensures
            r == self.view().key,
    {
        self.key
    }

    pub fn quantity(&self) -> (r: u64)
        ensures
            r == self.view().quantity,
    {
        self.quantity
    }

    pub fn set_quantity(&mut self, quantity: u64)
        ensures
            final(self).view() == (LeafView { quantity, ..old(self).view() }),
            final(self).spec_owner() == old(self).spec_owner(),
            final(self).spec_owner_slot() == old(self).spec_owner_slot(),
    {
        self.quantity = quantity;
    }

    pub fn owner(&self) -> (r: [u64; 4])
        ensures
            r == self.spec_owner(),
    {
        self.owner
    }

    pub fn owner_slot(&self) -> (r: u8)
        ensures
            r == self.spec_owner_slot(),
    {
        self.owner_slot
    }

    pub fn client_order_id(&self) -> (r: u64)
        ensures
            r == self.view().client_order_id,
    {
        self.client_order_id
    }
}


/// One 72-byte node of the slab, by the words that every node kind shares:
/// the tag, one 32-bit head word (prefix length of an inner node; owner slot
/// and fee tier of a leaf), the 128-bit key, and six 64-bit tail words (the
/// two children of an inner node; owner, quantity and client order id of a leaf).
#[derive(Copy, Clone, Debug)]
pub struct AnyNode {
    pub tag: u32,
    pub head: u32,
    pub key: u128,
    pub tail: [u64; 6],
}

/// The leaf that a node's words hold when it is tagged as a leaf.
pub open spec fn leaf_view_of(n: AnyNode) -> LeafView {
    LeafView { key: n.key, quantity: n.tail[4], client_order_id: n.tail[5] }
}

pub open spec fn low_word(w: u64) -> u32 {
    (w as nat % 0x1_0000_0000) as u32
}

pub open spec fn high_word(w: u64) -> u32 {
    (w as nat / 0x1_0000_0000) as u32
}

impl AnyNode {
    pub fn key(&self) -> (r: Option<u128>)
        ensures
            r.is_some() <==> (self.tag == TAG_INNER || self.tag == TAG_LEAF),
            r.is_some() ==> r.unwrap() == self.key,
    {
        if self.tag == TAG_INNER || self.tag == TAG_LEAF {
            Some(self.key)
        } else {
            None
        }
    }

    /// The two children of an inner node.
    pub fn children(&self) -> (r: Option<[u32; 2]>)
        ensures
            r.is_some() <==> self.tag == TAG_INNER,
            r.is_some() ==> r.unwrap()[0] == low_word(self.tail[0]) && r.unwrap()[1] == high_word(
                self.tail[0],
            ),
    {
        if self.tag == TAG_INNER {
            let w = self.tail[0];
            let c0 = (w % 0x1_0000_0000u64) as u32;
            let c1 = (w / 0x1_0000_0000u64) as u32;
            Some([c0, c1])
        } else {
            None
        }
    }

    /// The node as an inner node, if it is tagged as one.
    pub fn as_inner(&self) -> (r: Option<InnerNode>)
        ensures
            r.is_some() <==> self.tag == TAG_INNER,
            r.is_some() ==> r.unwrap().key == self.key && r.unwrap().prefix_len == self.head
                && r.unwrap().children[0] == low_word(self.tail[0]) && r.unwrap().children[1]
                == high_word(self.tail[0]),
    {
        match self.children() {
            Some(children) => Some(InnerNode { tag: self.tag, prefix_len: self.head, key: self.key, children }),
            None => None,
        }
    }

    /// The node as a leaf, if it is tagged as one.
    pub fn as_leaf(&self) -> (r: Option<LeafNode>)
        ensures
            r.is_some() <==> self.tag == TAG_LEAF,
            r.is_some() ==> r.unwrap().view() == leaf_view_of(*self),
            r.is_some() ==> r.unwrap().owner_slot as nat == self.head as nat % 256,
            r.is_some() ==> r.unwrap().fee_tier as nat == (self.head as nat / 256) % 256,
            r.is_some() ==> r.unwrap().owner == [self.tail[0], self.tail[1], self.tail[2], self.tail[3]],
    {
        if self.tag == TAG_LEAF {
            let h = self.head;
            Some(LeafNode {
                tag: self.tag,
                owner_slot: (h % 256) as u8,
                fee_tier: ((h / 256) % 256) as u8,
                padding: [((h / 65536) % 256) as u8, (h / 16777216) as u8],
                key: self.key,
                owner: [self.tail[0], self.tail[1], self.tail[2], self.tail[3]],
                quantity: self.tail[4],
                client_order_id: self.tail[5],
            })
        } else {
            None
        }
    }
}

/// Header at the start of the slab.
#[derive(Copy, Clone, Debug)]
pub struct SlabHeader {
    pub bump_index: u64,
    pub free_list_len: u64,
    pub free_list_head: u32,
    pub root_node: u32,
    pub leaf_count: u64,
}

/// A row of an orderbook side, in native units.
#[derive(Copy, Clone, Debug, PartialEq, Eq, Structural)]
pub struct OrderBookOrder {
    pub price: u64,
    pub quantity: u64,
    pub order_id: u128,
    pub client_order_id: u64,
}

/// Byte offset of node `h`.
pub open spec fn node_off(h: int) -> int {
    SLAB_HEADER_LEN + NODE_SIZE * h
}

/// Number of whole nodes after the header.
pub open spec fn node_count(b: Seq<u8>) -> nat {
    if b.len() >= SLAB_HEADER_LEN {
        ((b.len() - SLAB_HEADER_LEN) as nat) / (NODE_SIZE as nat)
    } else {
        0
    }
}

pub open spec fn root_of(b: Seq<u8>) -> u32 {
    le_at(b, 20, 4) as u32
}

pub open spec fn leaf_count_of(b: Seq<u8>) -> u64 {
    le_at(b, 24, 8) as u64
}

pub open spec fn tag_at(b: Seq<u8>, h: int) -> nat {
    le_at(b, node_off(h), 4)
}

pub open spec fn tail_at(b: Seq<u8>, h: int, k: int) -> u64 {
    le_at(b, node_off(h) + 24 + 8 * k, 8) as u64
}

/// Child `side` (0 or 1) of the inner node `h`.
pub open spec fn child_at(b: Seq<u8>, h: int, side: int) -> u32 {
    if side == 0 {
        low_word(tail_at(b, h, 0))
    } else {
        high_word(tail_at(b, h, 0))
    }
}

pub open spec fn leaf_at(b: Seq<u8>, h: int) -> LeafView {
    LeafView {
        key: le_at(b, node_off(h) + 8, 16) as u128,
        quantity: tail_at(b, h, 4),
        client_order_id: tail_at(b, h, 5),
    }
}

/// The node a slab view hands out for handle `h`: present only for an inner
/// node or a leaf within the slab.
pub open spec fn node_present(b: Seq<u8>, h: int) -> bool {
    0 <= h < node_count(b) && (tag_at(b, h) == TAG_INNER as nat || tag_at(b, h) == TAG_LEAF as nat)
}

/// The preorder walk with an explicit stack. Handles are popped from the end
/// of `stack`; an inner node pushes its children so that child 0 comes out
/// first when `asc` holds and child 1 first otherwise. The walk stops once
/// `depth` leaves are collected or the stack is empty; it fails on a handle
/// that is not an inner node or a leaf, and after `fuel` pops.
pub open spec fn traverse(
    b: Seq<u8>,
    stack: Seq<u32>,
    res: Seq<LeafView>,
    depth: nat,
    fuel: nat,
    asc: bool,
) -> Option<Seq<LeafView>>
    decreases fuel,
{
    if res.len() >= depth || stack.len() == 0 {
        Some(res)
    } else if fuel == 0 {
        None
    } else {
        let h = stack.last();
        let rest = stack.drop_last();
        if !node_present(b, h as int) {
            None
        } else if tag_at(b, h as int) == TAG_INNER as nat {
            let next = if asc {
                rest.push(child_at(b, h as int, 1)).push(child_at(b, h as int, 0))
            } else {
                rest.push(child_at(b, h as int, 0)).push(child_at(b, h as int, 1))
            };
            traverse(b, next, res, depth, (fuel - 1) as nat, asc)
        } else {
            traverse(b, rest, res.push(leaf_at(b, h as int)), depth, (fuel - 1) as nat, asc)
        }
    }
}

/// Up to `depth` leaves of the tree in preorder, or `None` for an empty tree
/// or a page that breaks the layout.
pub open spec fn leaf_depth(b: Seq<u8>, depth: nat, asc: bool) -> Option<Seq<LeafView>> {
    if b.len() < SLAB_HEADER_LEN || leaf_count_of(b) == 0 {
        None
    } else {
        traverse(b, seq![root_of(b)], seq![], depth, node_count(b), asc)
    }
}

/// One leaf as a row in native units: price `price_lots * pc_lot / coin_lot`,
/// quantity `quantity_lots * coin_lot`. `None` where the price is zero or a
/// value does not fit in 64 bits.
pub open spec fn row_of(l: LeafView, pc_lot_size: u64, coin_lot_size: u64) -> Option<OrderBookOrder> {
    let p = key_price(l.key);
    let price = (p * pc_lot_size) as int / (coin_lot_size as int);
    let quantity = (l.quantity as int) * (coin_lot_size as int);
    if p == 0 || price > u64::MAX || quantity > u64::MAX {
        None
    } else {
        Some(
            OrderBookOrder {
                price: price as u64,
                quantity: quantity as u64,
                order_id: l.key,
                client_order_id: l.client_order_id,
            },
        )
    }
}

pub open spec fn rows_of(ls: Seq<LeafView>, pc_lot_size: u64, coin_lot_size: u64) -> Seq<OrderBookOrder> {
    ls.map_values(|l: LeafView| row_of(l, pc_lot_size, coin_lot_size).unwrap())
}

pub open spec fn rows_ok(ls: Seq<LeafView>, pc_lot_size: u64, coin_lot_size: u64) -> bool {
    forall|i: int| 0 <= i < ls.len() ==> (#[trigger] row_of(ls[i], pc_lot_size, coin_lot_size)).is_some()
}

/// What the codec returns for a page: the first `min(depth, leaf_count)` leaves
/// in price order (ascending for asks, descending for bids) as rows, or an empty
/// list when the page breaks the layout or a row does not convert.
pub open spec fn depth_rows(
    b: Seq<u8>,
    depth: u64,
    pc_lot_size: u64,
    coin_lot_size: u64,
    asc: bool,
) -> Seq<OrderBookOrder> {
    let d = if depth <= leaf_count_of(b) { depth } else { leaf_count_of(b) };
    match leaf_depth(b, d as nat, asc) {
        Some(ls) => if rows_ok(ls, pc_lot_size, coin_lot_size) {
            rows_of(ls, pc_lot_size, coin_lot_size)
        } else {
            seq![]
        },
        None => seq![],
    }
}


pub open spec fn leaf_views(s: Seq<LeafNode>) -> Seq<LeafView> {
    s.map_values(|l: LeafNode| l.view())
}

/// One leaf as a row in native units (see `row_of`).
pub fn row_for(leaf: &LeafNode, pc_lot_size: u64, coin_lot_size: u64) -> (r: Option<OrderBookOrder>)
    requires
        coin_lot_size > 0,
    ensures
        r == row_of(leaf.view(), pc_lot_size, coin_lot_size),
{
    let leaf_price = leaf.price();
    if leaf_price == 0 {
        return None;
    }
    let lp = leaf_price as u128;
    let pc = pc_lot_size as u128;
    assert(lp * pc <= u128::MAX) by (nonlinear_arith)
        requires
            lp <= u64::MAX,
            pc <= u64::MAX,
    ;
    let token_price = lp * pc / (coin_lot_size as u128);
    if token_price > u64::MAX as u128 {
        return None;
    }
    match leaf.quantity.checked_mul(coin_lot_size) {
        Some(token_quantity) => Some(
            OrderBookOrder {
                price: token_price as u64,
                quantity: token_quantity,
                order_id: leaf.order_id(),
                client_order_id: leaf.client_order_id,
            },
        ),
        None => None,
    }
}

/// The node stored at handle `h`, read word by word.
pub open spec fn node_at(b: Seq<u8>, h: int) -> AnyNode {
    AnyNode {
        tag: tag_at(b, h) as u32,
        head: le_at(b, node_off(h) + 4, 4) as u32,
        key: le_at(b, node_off(h) + 8, 16) as u128,
        tail: [
            tail_at(b, h, 0),
            tail_at(b, h, 1),
            tail_at(b, h, 2),
            tail_at(b, h, 3),
            tail_at(b, h, 4),
            tail_at(b, h, 5),
        ],
    }
}

/// Looks a node up by handle.
pub trait SlabView<T> {
    spec fn spec_get(&self, h: u32) -> Option<T>;

    fn get(&self, h: u32) -> (r: Option<T>)
        ensures
            r == self.spec_get(h),
    ;
}

/// The bytes of one side of the orderbook, after the venue's framing and the
/// account discriminator: a slab header followed by 72-byte nodes.
pub struct Slab {
    pub bytes: Vec<u8>,
}

impl View for Slab {
    type V = Seq<u8>;

    open spec fn view(&self) -> Seq<u8> {
        self.bytes@
    }
}

proof fn lemma_node_in_bounds(len: int, h: int)
    requires
        len >= SLAB_HEADER_LEN,
        0 <= h < (len - SLAB_HEADER_LEN) / (NODE_SIZE as int),
    ensures
        node_off(h) + NODE_SIZE <= len,
{
    assert(node_off(h) + NODE_SIZE <= len) by (nonlinear_arith)
        requires
            len >= 32,
            0 <= h < (len - 32) / 72,
            node_off(h) == 32 + 72 * h,
    ;
}

impl SlabView<AnyNode> for Slab {
    open spec fn spec_get(&self, h: u32) -> Option<AnyNode> {
        if node_present(self@, h as int) {
            Some(node_at(self@, h as int))
        } else {
            None
        }
    }

    fn get(&self, h: u32) -> (r: Option<AnyNode>) {
        let n = self.node_count();
        if h as usize >= n {
            return None;
        }
        let len = self.bytes.len();
        proof {
            lemma_node_in_bounds(self@.len() as int, h as int);
            assert(node_off(h as int) + NODE_SIZE <= len);
        }
        let off: usize = SLAB_HEADER_LEN + NODE_SIZE * (h as usize);
        let b = self.bytes.as_slice();
        let tag = read_u32(b, off);
        if tag != TAG_INNER && tag != TAG_LEAF {
            return None;
        }
        let node = AnyNode {
            tag,
            head: read_u32(b, off + 4),
            key: read_u128(b, off + 8),
            tail: [
                read_u64(b, off + 24),
                read_u64(b, off + 32),
                read_u64(b, off + 40),
                read_u64(b, off + 48),
                read_u64(b, off + 56),
                read_u64(b, off + 64),
            ],
        };
        Some(node)
    }
}

impl Slab {
    /// Takes the bytes of a page side; bytes after the last whole node are ignored.
    pub fn new(bytes: Vec<u8>) -> (r: Slab)
        ensures
            r@ == bytes@,
    {
        Slab { bytes }
    }

    pub fn node_count(&self) -> (r: usize)
        ensures
            r == node_count(self@),
    {
        let len = self.bytes.len();
        if len >= SLAB_HEADER_LEN {
            (len - SLAB_HEADER_LEN) / NODE_SIZE
        } else {
            0
        }
    }

    /// The slab header, when the page is long enough to hold one.
    pub fn header(&self) -> (r: Option<SlabHeader>)
        ensures
            r.is_some() <==> self@.len() >= SLAB_HEADER_LEN,
            r.is_some() ==> r.unwrap().root_node == root_of(self@) && r.unwrap().leaf_count
                == leaf_count_of(self@),
            r.is_some() ==> r.unwrap().bump_index as nat == le_at(self@, 0, 8) && r.unwrap().free_list_len as nat
                == le_at(self@, 8, 8) && r.unwrap().free_list_head as nat == le_at(self@, 16, 4),
    {
        if self.bytes.len() < SLAB_HEADER_LEN {
            return None;
        }
        let b = self.bytes.as_slice();
        Some(
            SlabHeader {
                bump_index: read_u64(b, 0),
                free_list_len: read_u64(b, 8),
                free_list_head: read_u32(b, 16),
                root_node: read_u32(b, 20),
                leaf_count: read_u64(b, 24),
            },
        )
    }

    /// The root handle, absent for an empty tree or a page without a header.
    pub fn root(&self) -> (r: Option<u32>)
        ensures
            r.is_some() <==> (self@.len() >= SLAB_HEADER_LEN && leaf_count_of(self@) != 0),
            r.is_some() ==> r.unwrap() == root_of(self@),
    {
        match self.header() {
            Some(h) => if h.leaf_count == 0 {
                None
            } else {
                Some(h.root_node)
            },
            None => None,
        }
    }

    /// Up to `depth` leaves in preorder: child 0 first when `asc`, child 1 first otherwise.
    pub fn get_leaf_depth(&self, depth: u64, asc: bool) -> (r: Option<Vec<LeafNode>>)
        ensures
            r.is_some() <==> leaf_depth(self@, depth as nat, asc).is_some(),
            r.is_some() ==> leaf_views(r.unwrap()@) == leaf_depth(
                self@,
                depth as nat,
                asc,
            ).unwrap(),
    {
        let root = match self.root() {
            Some(r) => r,
            None => return None,
        };
        let ghost b = self@;
        let ghost start = traverse(b, seq![root], seq![], depth as nat, node_count(b), asc);
        assert(leaf_depth(b, depth as nat, asc) == start);
        let mut fuel: usize = self.node_count();
        let mut stack: Vec<u32> = Vec::new();
        stack.push(root);
        let mut res: Vec<LeafNode> = Vec::new();
        proof {
            assert(stack@ =~= seq![root]);
            assert(leaf_views(res@) =~= Seq::<LeafView>::empty());
        }
        while (res.len() as u64) < depth && stack.len() > 0
            invariant
                b == self@,
                leaf_depth(b, depth as nat, asc) == start,
                traverse(b, stack@, leaf_views(res@), depth as nat, fuel as nat, asc)
                    == start,
            decreases fuel,
        {
            let ghost views = leaf_views(res@);
            assert(views.len() == res@.len());
            assert(views.len() < depth);
            if fuel == 0 {
                assert(traverse(b, stack@, views, depth as nat, fuel as nat, asc) is None);
                return None;
            }
            let ghost old_stack = stack@;
            let h = stack.pop().unwrap();
            assert(h == old_stack.last() && stack@ == old_stack.drop_last());
            fuel = fuel - 1;
            match self.get(h) {
                None => {
                    assert(!node_present(b, h as int));
                    assert(traverse(b, old_stack, views, depth as nat, (fuel + 1) as nat, asc) is None);
                    return None;
                },
                Some(node) => {
                    match node.children() {
                        Some(children) => {
                            if asc {
                                stack.push(children[1]);
                                stack.push(children[0]);
                            } else {
                                stack.push(children[0]);
                                stack.push(children[1]);
                            }
                        },
                        None => {
                            let leaf = node.as_leaf().unwrap();
                            let ghost old_views = leaf_views(res@);
                            res.push(leaf);
                            proof {
                                assert(leaf_views(res@) =~= old_views.push(
                                    leaf.view(),
                                ));
                            }
                        },
                    }
                },
            }
        }
        Some(res)
    }

    /// The first `min(depth, leaf_count)` orders of this side in native units,
    /// best price first (ascending for asks, descending for bids). A page that
    /// breaks the layout, or a row that does not fit in 64 bits, gives an empty list.
    pub fn get_depth(
        &self,
        depth: u64,
        pc_lot_size: u64,
        coin_lot_size: u64,
        is_asks: bool,
    ) -> (r: Vec<OrderBookOrder>)
        requires
            coin_lot_size > 0,
        ensures
            r@ == depth_rows(self@, depth, pc_lot_size, coin_lot_size, is_asks),
    {
        let header = match self.header() {
            Some(h) => h,
            None => return Vec::new(),
        };
        let depth_to_get = if depth <= header.leaf_count {
            depth
        } else {
            header.leaf_count
        };
        let leafs = match self.get_leaf_depth(depth_to_get, is_asks) {
            Some(l) => l,
            None => return Vec::new(),
        };
        let ghost ls = leaf_views(leafs@);
        let mut res: Vec<OrderBookOrder> = Vec::new();
        let mut i: usize = 0;
        while i < leafs.len()
            invariant
                i <= leafs@.len(),
                ls == leaf_views(leafs@),
                leaf_depth(self@, depth_to_get as nat, is_asks) == Some(ls),
                depth_to_get == (if depth <= leaf_count_of(self@) { depth } else { leaf_count_of(self@) }),
                coin_lot_size > 0,
                forall|j: int| 0 <= j < i ==> (#[trigger] row_of(ls[j], pc_lot_size, coin_lot_size)).is_some(),
                res@ =~= rows_of(ls, pc_lot_size, coin_lot_size).take(i as int),
            decreases leafs.len() - i,
        {
            assert(ls[i as int] == leafs@[i as int].view());
            match row_for(&leafs[i], pc_lot_size, coin_lot_size) {
                Some(row) => {
                    res.push(row);
                },
                None => {
                    assert(row_of(ls[i as int], pc_lot_size, coin_lot_size) is None);
                    assert(!rows_ok(ls, pc_lot_size, coin_lot_size));
                    return Vec::new();
                },
            }
            i = i + 1;
        }
        assert(rows_of(ls, pc_lot_size, coin_lot_size).take(i as int) =~= rows_of(ls, pc_lot_size, coin_lot_size));
        res
    }
}


/// Leaves of the subtree at `h` in the order a walk visits them (child 0 first
/// when `asc`), with its number of nodes; `None` where the subtree breaks the
/// layout or is deeper than `height`.
pub open spec fn subtree(b: Seq<u8>, h: u32, height: nat, asc: bool) -> Option<(Seq<LeafView>, nat)>
    decreases height,
{
    if height == 0 || !node_present(b, h as int) {
        None
    } else if tag_at(b, h as int) == TAG_INNER as nat {
        let first = child_at(b, h as int, if asc { 0 } else { 1 });
        let second = child_at(b, h as int, if asc { 1 } else { 0 });
        let x = subtree(b, first, (height - 1) as nat, asc);
        let y = subtree(b, second, (height - 1) as nat, asc);
        if x is Some && y is Some {
            Some((x.unwrap().0 + y.unwrap().0, x.unwrap().1 + y.unwrap().1 + 1))
        } else {
            None
        }
    } else {
        Some((seq![leaf_at(b, h as int)], 1))
    }
}

pub open spec fn keys_ascending(s: Seq<LeafView>) -> bool {
    forall|i: int, j: int| 0 <= i < j < s.len() ==> s[i].key < s[j].key
}

/// A page that holds a well-formed critbit tree: a header; and, unless the tree
/// is empty, a tree from the root whose nodes fit in the page, whose number of
/// leaves is the header's leaf count, and whose leaves, child 0 before child 1,
/// have strictly increasing keys.
pub open spec fn well_formed_slab(b: Seq<u8>) -> bool {
    &&& b.len() >= SLAB_HEADER_LEN
    &&& leaf_count_of(b) > 0 ==> {
        let t = subtree(b, root_of(b), node_count(b), true);
        &&& t is Some
        &&& t.unwrap().0.len() == leaf_count_of(b)
        &&& t.unwrap().1 <= node_count(b)
        &&& keys_ascending(t.unwrap().0)
    }
}

proof fn lemma_traverse_subtree(
    b: Seq<u8>,
    rest: Seq<u32>,
    h: u32,
    res: Seq<LeafView>,
    depth: nat,
    fuel: nat,
    height: nat,
    asc: bool,
)
    requires
        subtree(b, h, height, asc) is Some,
        fuel >= subtree(b, h, height, asc).unwrap().1,
        res.len() < depth,
    ensures
        ({
            let ls = subtree(b, h, height, asc).unwrap().0;
            let n = subtree(b, h, height, asc).unwrap().1;
            traverse(b, rest.push(h), res, depth, fuel, asc) == if res.len() + ls.len() >= depth {
                Some(res + ls.take(depth - res.len()))
            } else {
                traverse(b, rest, res + ls, depth, (fuel - n) as nat, asc)
            }
        }),
    decreases height,
{
    let st = rest.push(h);
    assert(st.last() == h);
    assert(st.drop_last() =~= rest);
    if tag_at(b, h as int) == TAG_INNER as nat {
        let first = child_at(b, h as int, if asc { 0 } else { 1 });
        let second = child_at(b, h as int, if asc { 1 } else { 0 });
        let a = subtree(b, first, (height - 1) as nat, asc).unwrap();
        let z = subtree(b, second, (height - 1) as nat, asc).unwrap();
        let ls = a.0 + z.0;
        assert(rest.push(second).push(first) == if asc {
            rest.push(child_at(b, h as int, 1)).push(child_at(b, h as int, 0))
        } else {
            rest.push(child_at(b, h as int, 0)).push(child_at(b, h as int, 1))
        });
        lemma_traverse_subtree(b, rest.push(second), first, res, depth, (fuel - 1) as nat, (height - 1) as nat, asc);
        if res.len() + a.0.len() >= depth {
            assert(a.0.take(depth - res.len()) =~= ls.take(depth - res.len()));
        } else {
            lemma_traverse_subtree(
                b,
                rest,
                second,
                res + a.0,
                depth,
                (fuel - 1 - a.1) as nat,
                (height - 1) as nat,
                asc,
            );
            assert(res + a.0 + z.0 =~= res + ls);
            if res.len() + ls.len() >= depth {
                assert(res + a.0 + z.0.take(depth - (res.len() + a.0.len())) =~= res + ls.take(
                    depth - res.len(),
                ));
            }
        }
    } else {
        let l = leaf_at(b, h as int);
        assert(res.push(l) =~= res + seq![l]);
        if res.len() + 1 >= depth {
            assert(seq![l].take(depth - res.len()) =~= seq![l]);
        }
    }
}

/// The walk from the root of a well-formed tree yields the first `depth`
/// leaves of its subtree sequence.
proof fn lemma_walk_prefix(b: Seq<u8>, depth: nat, asc: bool)
    requires
        b.len() >= SLAB_HEADER_LEN,
        leaf_count_of(b) > 0,
        subtree(b, root_of(b), node_count(b), asc) is Some,
        subtree(b, root_of(b), node_count(b), asc).unwrap().1 <= node_count(b),
        depth <= subtree(b, root_of(b), node_count(b), asc).unwrap().0.len(),
    ensures
        leaf_depth(b, depth, asc) == Some(subtree(b, root_of(b), node_count(b), asc).unwrap().0.take(depth as int)),
{
    let ls = subtree(b, root_of(b), node_count(b), asc).unwrap().0;
    if depth == 0 {
        assert(ls.take(0) =~= Seq::<LeafView>::empty());
    } else {
        assert(Seq::<u32>::empty().push(root_of(b)) =~= seq![root_of(b)]);
        lemma_traverse_subtree(b, Seq::empty(), root_of(b), seq![], depth, node_count(b), node_count(b), asc);
        assert(Seq::<LeafView>::empty() + ls.take(depth as int) =~= ls.take(depth as int));
    }
}

/// Walking child 1 first visits the leaves in the reverse order.
proof fn lemma_subtree_reverse(b: Seq<u8>, h: u32, height: nat)
    ensures
        subtree(b, h, height, true) is Some <==> subtree(b, h, height, false) is Some,
        subtree(b, h, height, true) is Some ==> subtree(b, h, height, false).unwrap().0
            =~= subtree(b, h, height, true).unwrap().0.reverse() && subtree(b, h, height, false).unwrap().1
            == subtree(b, h, height, true).unwrap().1,
    decreases height,
{
    if height > 0 && node_present(b, h as int) && tag_at(b, h as int) == TAG_INNER as nat {
        let c0 = child_at(b, h as int, 0);
        let c1 = child_at(b, h as int, 1);
        lemma_subtree_reverse(b, c0, (height - 1) as nat);
        lemma_subtree_reverse(b, c1, (height - 1) as nat);
        if subtree(b, h, height, true) is Some {
            let a = subtree(b, c0, (height - 1) as nat, true).unwrap().0;
            let z = subtree(b, c1, (height - 1) as nat, true).unwrap().0;
            assert((a + z).reverse() =~= z.reverse() + a.reverse());
        }
    } else if height > 0 && node_present(b, h as int) {
        let l = leaf_at(b, h as int);
        assert(seq![l].reverse() =~= seq![l]);
    }
}

proof fn lemma_row_price_monotone(k1: u128, k2: u128, pc_lot_size: u64, coin_lot_size: u64)
    requires
        k1 <= k2,
        coin_lot_size > 0,
    ensures
        (key_price(k1) * pc_lot_size) as int / (coin_lot_size as int) <= (key_price(k2) * pc_lot_size) as int
            / (coin_lot_size as int),
{
    vstd::arithmetic::div_mod::lemma_div_is_ordered(k1 as int, k2 as int, 0x1_0000_0000_0000_0000);
    let lo_price = key_price(k1);
    let hi_price = key_price(k2);
    assert(lo_price * pc_lot_size <= hi_price * pc_lot_size) by (nonlinear_arith)
        requires
            lo_price <= hi_price,
    ;
    vstd::arithmetic::div_mod::lemma_div_is_ordered(
        (lo_price * pc_lot_size) as int,
        (hi_price * pc_lot_size) as int,
        coin_lot_size as int,
    );
}

/// The leaves that the codec converts, for a well-formed page with leaves:
/// a prefix of the leaves in key order (ascending), or of their reverse.
proof fn lemma_depth_leaves(b: Seq<u8>, depth: u64, asc: bool)
    requires
        well_formed_slab(b),
        leaf_count_of(b) > 0,
    ensures
        ({
            let all = subtree(b, root_of(b), node_count(b), true).unwrap().0;
            let d = if depth <= leaf_count_of(b) { depth } else { leaf_count_of(b) };
            leaf_depth(b, d as nat, asc) == Some(
                if asc { all } else { all.reverse() }.take(d as int),
            )
        }),
{
    lemma_subtree_reverse(b, root_of(b), node_count(b));
    let d = if depth <= leaf_count_of(b) { depth } else { leaf_count_of(b) };
    lemma_walk_prefix(b, d as nat, asc);
}

/// Rows come best price first: ascending prices for asks (`asc`), descending
/// prices for bids, whenever the page holds a well-formed critbit tree.
pub proof fn lemma_depth_rows_sorted(b: Seq<u8>, depth: u64, pc_lot_size: u64, coin_lot_size: u64, asc: bool)
    requires
        well_formed_slab(b),
        coin_lot_size > 0,
    ensures
        forall|i: int, j: int|
            0 <= i < j < depth_rows(b, depth, pc_lot_size, coin_lot_size, asc).len() ==> if asc {
                depth_rows(b, depth, pc_lot_size, coin_lot_size, asc)[i].price <= depth_rows(
                    b,
                    depth,
                    pc_lot_size,
                    coin_lot_size,
                    asc,
                )[j].price
            } else {
                depth_rows(b, depth, pc_lot_size, coin_lot_size, asc)[i].price >= depth_rows(
                    b,
                    depth,
                    pc_lot_size,
                    coin_lot_size,
                    asc,
                )[j].price
            },
{
    if leaf_count_of(b) > 0 {
        lemma_depth_leaves(b, depth, asc);
        let all = subtree(b, root_of(b), node_count(b), true).unwrap().0;
        let d = if depth <= leaf_count_of(b) { depth } else { leaf_count_of(b) };
        let ls = if asc { all } else { all.reverse() }.take(d as int);
        let r = depth_rows(b, depth, pc_lot_size, coin_lot_size, asc);
        if rows_ok(ls, pc_lot_size, coin_lot_size) {
            assert forall|i: int, j: int| 0 <= i < j < r.len() implies if asc {
                r[i].price <= r[j].price
            } else {
                r[i].price >= r[j].price
            } by {
                assert(row_of(ls[i], pc_lot_size, coin_lot_size) is Some);
                assert(row_of(ls[j], pc_lot_size, coin_lot_size) is Some);
                if asc {
                    assert(ls[i] == all[i] && ls[j] == all[j]);
                    lemma_row_price_monotone(ls[i].key, ls[j].key, pc_lot_size, coin_lot_size);
                } else {
                    let n = all.len() as int;
                    assert(ls[i] == all[n - 1 - i] && ls[j] == all[n - 1 - j]);
                    lemma_row_price_monotone(ls[j].key, ls[i].key, pc_lot_size, coin_lot_size);
                }
            }
        }
    }
}

/// For a well-formed page whose leaves all convert, the codec returns exactly
/// `min(depth, leaf_count)` rows.
pub proof fn lemma_depth_rows_len(b: Seq<u8>, depth: u64, pc_lot_size: u64, coin_lot_size: u64, asc: bool)
    requires
        well_formed_slab(b),
        leaf_count_of(b) > 0 ==> rows_ok(
            subtree(b, root_of(b), node_count(b), true).unwrap().0,
            pc_lot_size,
            coin_lot_size,
        ),
    ensures
        depth_rows(b, depth, pc_lot_size, coin_lot_size, asc).len() == if depth <= leaf_count_of(b) {
            depth
        } else {
            leaf_count_of(b)
        },
{
    if leaf_count_of(b) > 0 {
        lemma_depth_leaves(b, depth, asc);
        let all = subtree(b, root_of(b), node_count(b), true).unwrap().0;
        let d = if depth <= leaf_count_of(b) { depth } else { leaf_count_of(b) };
        let ls = if asc { all } else { all.reverse() }.take(d as int);
        assert forall|i: int| 0 <= i < ls.len() implies (#[trigger] row_of(ls[i], pc_lot_size, coin_lot_size)) is Some by {
            if asc {
                assert(ls[i] == all[i]);
            } else {
                assert(ls[i] == all[all.len() - 1 - i]);
            }
            assert(row_of(all[if asc { i } else { all.len() - 1 - i }], pc_lot_size, coin_lot_size) is Some);
        }
    }
}

/// The codec is a function of the page bytes and its arguments: decoding the
/// same bytes twice gives the same rows.
pub proof fn lemma_depth_rows_deterministic(
    b1: Seq<u8>,
    b2: Seq<u8>,
    depth: u64,
    pc_lot_size: u64,
    coin_lot_size: u64,
    asc: bool,
)
    requires
        b1 == b2,
    ensures
        depth_rows(b1, depth, pc_lot_size, coin_lot_size, asc) == depth_rows(b2, depth, pc_lot_size, coin_lot_size, asc),
{
}

} // verus!
