//! Huffman decoding trees, walked one bit at a time.
use vstd::prelude::*;

verus! {

/// A decoded big-values pair.
#[derive(Debug, Copy, Clone, PartialEq, Eq, Structural)]
pub struct BigHuffmanTableNodeValue {
    pub x: u8,
    pub y: u8,
}

/// A tree node: a leaf holds a value; the branches name the nodes reached by a 0 and by a 1 bit.
#[derive(Debug, Copy, Clone)]
pub struct BigHuffmanTableNode {
    data: Option<BigHuffmanTableNodeValue>,
    tr0: Option<usize>,
    tr1: Option<usize>,
}

/// A decoding tree for the big-values region, with the number of linbits of its table.
pub struct BigHuffmanTable {
    nodes: Vec<BigHuffmanTableNode>,
    pub linbits: u8,
    root: usize,
}

/// Walks a big-values tree from its root.
pub struct BigHuffmanDecoder<'a> {
    table: &'a BigHuffmanTable,
    current: usize,
}

/// What one more bit gave.
#[derive(Debug, Copy, Clone, PartialEq, Eq, Structural)]
pub enum BigHuffmanDecoderResult {
    /// A leaf was reached.
    Valid(BigHuffmanTableNodeValue),
    /// The bit leads nowhere.
    InvalidCode,
    /// An inner node was reached.
    NeedMoreBits,
}

impl BigHuffmanTableNode {
    /// The node's value, if it is a leaf.
    pub closed spec fn value(self) -> Option<BigHuffmanTableNodeValue> {
        self.data
    }

    /// The node reached by a `bit`.
    pub closed spec fn branch(self, bit: bool) -> Option<usize> {
        if bit {
            self.tr1
        } else {
            self.tr0
        }
    }

    /// A node with the given value and branches.
    pub fn new(data: Option<BigHuffmanTableNodeValue>, tr0: Option<usize>, tr1: Option<usize>) -> (r:
        Self)
        ensures
            r.value() == data,
            r.branch(false) == tr0,
            r.branch(true) == tr1,
    {
        BigHuffmanTableNode { data, tr0, tr1 }
    }
}

impl BigHuffmanTable {
    /// The nodes of the tree.
    pub closed spec fn node_seq(&self) -> Seq<BigHuffmanTableNode> {
        self.nodes@
    }

    /// The index of the root node.
    pub closed spec fn root_index(&self) -> usize {
        self.root
    }

    /// The number of linbits of the table.
    pub closed spec fn linbits_count(&self) -> u8 {
        self.linbits
    }

    /// The number of linbits of the table.
    pub fn linbits(&self) -> (r: u8)
        ensures
            r == self.linbits_count(),
    {
        self.linbits
    }

    /// A tree of `nodes` with root `root`, for a table with `linbits` linbits.
    pub fn new(nodes: Vec<BigHuffmanTableNode>, linbits: u8, root: usize) -> (r: Self)
        ensures
            r.node_seq() == nodes@,
            r.root_index() == root,
            r.linbits_count() == linbits,
    {
        BigHuffmanTable { nodes, linbits, root }
    }
}

/// What feeding `bit` at node `current` of a tree gives, and the node the walk is at after it:
/// back at the root after a leaf or a dead end.
pub open spec fn big_feed(nodes: Seq<BigHuffmanTableNode>, root: usize, current: usize, bit: bool) -> (
    BigHuffmanDecoderResult,
    usize,
) {
    if current >= nodes.len() {
        (BigHuffmanDecoderResult::InvalidCode, root)
    } else {
        match nodes[current as int].branch(bit) {
            None => (BigHuffmanDecoderResult::InvalidCode, root),
            Some(next) => if next >= nodes.len() {
                (BigHuffmanDecoderResult::InvalidCode, root)
            } else {
                match nodes[next as int].value() {
                    Some(d) => (BigHuffmanDecoderResult::Valid(d), root),
                    None => (BigHuffmanDecoderResult::NeedMoreBits, next),
                }
            },
        }
    }
}

/// The node reached from node `cur` of a big-values tree by following the
/// branch of each bit of `s` in turn; `None` where a branch is missing or
/// leads outside the tree.
pub open spec fn big_path(nodes: Seq<BigHuffmanTableNode>, cur: usize, s: Seq<bool>) -> Option<usize>
    decreases s.len(),
{
    if s.len() == 0 {
        Some(cur)
    } else if cur >= nodes.len() {
        None
    } else {
        match nodes[cur as int].branch(s[0]) {
            None => None,
            Some(next) => if next >= nodes.len() {
                None
            } else {
                big_path(nodes, next, s.drop_first())
            },
        }
    }
}

/// The results of feeding the bits `s` one at a time to a walk of a
/// big-values tree that is at node `cur`, and the node the walk is at after them.
pub open spec fn big_feeds(nodes: Seq<BigHuffmanTableNode>, root: usize, cur: usize, s: Seq<bool>) -> (
    Seq<BigHuffmanDecoderResult>,
    usize,
)
    decreases s.len(),
{
    if s.len() == 0 {
        (Seq::empty(), cur)
    } else {
        let (r, next) = big_feed(nodes, root, cur, s[0]);
        let (rs, end) = big_feeds(nodes, root, next, s.drop_first());
        (seq![r] + rs, end)
    }
}

/// Feeding a code word: when the bits `s` lead from node `cur` through inner
/// nodes to a leaf whose value is `v`, feeding them one at a time gives
/// `NeedMoreBits` for each bit but the last, then `Valid(v)`, and the walk is
/// back at the root, where a new walk starts.
pub proof fn law_big_code_word(
    nodes: Seq<BigHuffmanTableNode>,
    root: usize,
    cur: usize,
    s: Seq<bool>,
    v: BigHuffmanTableNodeValue,
)
    requires
        s.len() > 0,
        big_path(nodes, cur, s) matches Some(n) && n < nodes.len() && nodes[n as int].value()
            == Some(v),
        forall|k: int|
            0 < k < s.len() ==> ((#[trigger] big_path(nodes, cur, s.take(k))) matches Some(m) && m
                < nodes.len() && nodes[m as int].value() is None),
    ensures
        big_feeds(nodes, root, cur, s) == (
            Seq::new(
                s.len(),
                |i: int|
                    if i + 1 < s.len() {
                        BigHuffmanDecoderResult::NeedMoreBits
                    } else {
                        BigHuffmanDecoderResult::Valid(v)
                    },
            ),
            root,
        ),
    decreases s.len(),
{
    reveal_with_fuel(big_path, 2);
    reveal_with_fuel(big_feeds, 2);
    let t = s.drop_first();
    let next = nodes[cur as int].branch(s[0]).unwrap();
    assert(cur < nodes.len());
    assert(next < nodes.len());
    if s.len() == 1 {
        assert(t =~= Seq::<bool>::empty());
        assert(big_path(nodes, next, t) == Some(next));
        assert(big_feed(nodes, root, cur, s[0]) == (BigHuffmanDecoderResult::Valid(v), root));
        assert(big_feeds(nodes, root, root, t) == (Seq::<BigHuffmanDecoderResult>::empty(), root));
        assert(big_feeds(nodes, root, cur, s).0 =~= Seq::new(
            s.len(),
            |i: int|
                if i + 1 < s.len() {
                    BigHuffmanDecoderResult::NeedMoreBits
                } else {
                    BigHuffmanDecoderResult::Valid(v)
                },
        ));
    } else {
        assert(s.take(1).drop_first() =~= Seq::<bool>::empty());
        assert(s.take(1)[0] == s[0]);
        assert(big_path(nodes, cur, s.take(1)) matches Some(m) && m < nodes.len() && nodes[m as int].value() is None);
        assert forall|k: int| 0 < k < t.len() implies ((#[trigger] big_path(
            nodes,
            next,
            t.take(k),
        )) matches Some(m) && m < nodes.len() && nodes[m as int].value() is None) by {
            assert(s.take(k + 1).drop_first() =~= t.take(k));
            assert(s.take(k + 1)[0] == s[0]);
            assert(big_path(nodes, cur, s.take(k + 1)) matches Some(m) && m < nodes.len()
                && nodes[m as int].value() is None);
        }
        assert(big_feed(nodes, root, cur, s[0]) == (BigHuffmanDecoderResult::NeedMoreBits, next));
        law_big_code_word(nodes, root, next, t, v);
        assert(big_feeds(nodes, root, cur, s).0 =~= Seq::new(
            s.len(),
            |i: int|
                if i + 1 < s.len() {
                    BigHuffmanDecoderResult::NeedMoreBits
                } else {
                    BigHuffmanDecoderResult::Valid(v)
                },
        ));
    }
}

/// Walking a big-values tree: after a leaf or a dead end the walk is back at
/// the root; it stays away from the root only at an inner node of the tree.
pub proof fn law_big_walk_restarts(
    nodes: Seq<BigHuffmanTableNode>,
    root: usize,
    current: usize,
    bit: bool,
)
    ensures
        !(big_feed(nodes, root, current, bit).0 is NeedMoreBits) ==> big_feed(
            nodes,
            root,
            current,
            bit,
        ).1 == root,
        big_feed(nodes, root, current, bit).0 is NeedMoreBits ==> ({
            let next = big_feed(nodes, root, current, bit).1;
            &&& next < nodes.len()
            &&& nodes[current as int].branch(bit) == Some(next)
            &&& nodes[next as int].value() is None
        }),
{
}

impl<'a> BigHuffmanDecoder<'a> {
    /// The tree being walked.
    pub closed spec fn tree(&self) -> &'a BigHuffmanTable {
        self.table
    }

    /// The node the walk is at.
    pub closed spec fn at(&self) -> usize {
        self.current
    }

    /// A walk of `table` at its root.
    pub fn new(table: &'a BigHuffmanTable) -> (r: Self)
        ensures
            r.tree() == table,
            r.at() == table.root_index(),
    {
        BigHuffmanDecoder { table, current: table.root }
    }

    fn reset(&mut self)
        ensures
            final(self).tree() == old(self).tree(),
            final(self).at() == old(self).tree().root_index(),
    {
        self.current = self.table.root;
    }

    /// Follows one bit of a code.
    pub fn feed(&mut self, bit: bool) -> (r: BigHuffmanDecoderResult)
        ensures
            final(self).tree() == old(self).tree(),
            (r, final(self).at()) == big_feed(
                old(self).tree().node_seq(),
                old(self).tree().root_index(),
                old(self).at(),
                bit,
            ),
    {
        if self.current >= self.table.nodes.len() {
            self.reset();
            return BigHuffmanDecoderResult::InvalidCode;
        }
        let node = self.table.nodes[self.current];
        let next = if bit {
            node.tr1
        } else {
            node.tr0
        };
        let next = match next {
            Some(n) => n,
            None => {
                self.reset();
                return BigHuffmanDecoderResult::InvalidCode;
            },
        };
        if next >= self.table.nodes.len() {
            self.reset();
            return BigHuffmanDecoderResult::InvalidCode;
        }
        let next_node = self.table.nodes[next];
        self.current = next;
        match next_node.data {
            Some(data) => {
                self.reset();
                BigHuffmanDecoderResult::Valid(data)
            },
            None => BigHuffmanDecoderResult::NeedMoreBits,
        }
    }
}

/// A decoded count1 quadruple.
#[derive(Debug, Copy, Clone, PartialEq, Eq, Structural)]
pub struct Count1HuffmanTableNodeValue {
    x: u8,
    y: u8,
    z: u8,
    w: u8,
}

impl Count1HuffmanTableNodeValue {
    /// The quadruple `(x, y, z, w)`.
    pub fn new(x: u8, y: u8, z: u8, w: u8) -> (r: Self)
        ensures
            r.values() == (x, y, z, w),
    {
        Count1HuffmanTableNodeValue { x, y, z, w }
    }

    /// The four values.
    pub closed spec fn values(self) -> (u8, u8, u8, u8) {
        (self.x, self.y, self.z, self.w)
    }

    /// The four values, in line order.
    pub fn quad(&self) -> (r: (u8, u8, u8, u8))
        ensures
            r == self.values(),
    {
        (self.x, self.y, self.z, self.w)
    }
}

/// A tree node of a count1 tree.
#[derive(Debug, Copy, Clone)]
pub struct Count1HuffmanTableNode {
    data: Option<Count1HuffmanTableNodeValue>,
    tr0: Option<usize>,
    tr1: Option<usize>,
}

impl Count1HuffmanTableNode {
    /// The node's value, if it is a leaf.
    pub closed spec fn value(self) -> Option<Count1HuffmanTableNodeValue> {
        self.data
    }

    /// The node reached by a `bit`.
    pub closed spec fn branch(self, bit: bool) -> Option<usize> {
        if bit {
            self.tr1
        } else {
            self.tr0
        }
    }

    /// A node with the given value and branches.
    pub fn new(data: Option<Count1HuffmanTableNodeValue>, tr0: Option<usize>, tr1: Option<usize>) -> (r:
        Self)
        ensures
            r.value() == data,
            r.branch(false) == tr0,
            r.branch(true) == tr1,
    {
        Count1HuffmanTableNode { data, tr0, tr1 }
    }
}

/// A decoding tree for the count1 region.
pub struct Count1HuffmanTable {
    nodes: Vec<Count1HuffmanTableNode>,
    linbits: u8,
    root: usize,
}

impl Count1HuffmanTable {
    /// The nodes of the tree.
    pub closed spec fn node_seq(&self) -> Seq<Count1HuffmanTableNode> {
        self.nodes@
    }

    /// The index of the root node.
    pub closed spec fn root_index(&self) -> usize {
        self.root
    }

    /// A tree of `nodes` with root `root`.
    pub fn new(nodes: Vec<Count1HuffmanTableNode>, linbits: u8, root: usize) -> (r: Self)
        ensures
            r.node_seq() == nodes@,
            r.root_index() == root,
    {
        Count1HuffmanTable { nodes, linbits, root }
    }
}

/// Walks a count1 tree from its root.
pub struct Count1HuffmanDecoder<'a> {
    table: &'a Count1HuffmanTable,
    current: usize,
}

/// What one more bit gave.
#[derive(Debug, Copy, Clone, PartialEq, Eq, Structural)]
pub enum Count1HuffmanDecoderResult {
    /// A leaf was reached.
    Valid(Count1HuffmanTableNodeValue),
    /// The bit leads nowhere.
    InvalidCode,
    /// An inner node was reached.
    NeedMoreBits,
}

/// What feeding `bit` at node `current` of a count1 tree gives, and the node after it.
pub open spec fn count1_feed(
    nodes: Seq<Count1HuffmanTableNode>,
    root: usize,
    current: usize,
    bit: bool,
) -> (Count1HuffmanDecoderResult, usize) {
    if current >= nodes.len() {
        (Count1HuffmanDecoderResult::InvalidCode, root)
    } else {
        match nodes[current as int].branch(bit) {
            None => (Count1HuffmanDecoderResult::InvalidCode, root),
            Some(next) => if next >= nodes.len() {
                (Count1HuffmanDecoderResult::InvalidCode, root)
            } else {
                match nodes[next as int].value() {
                    Some(d) => (Count1HuffmanDecoderResult::Valid(d), root),
                    None => (Count1HuffmanDecoderResult::NeedMoreBits, next),
                }
            },
        }
    }
}

/// Walking a count1 tree: after a leaf or a dead end the walk is back at the
/// root; it stays away from the root only at an inner node of the tree.
pub proof fn law_count1_walk_restarts(
    nodes: Seq<Count1HuffmanTableNode>,
    root: usize,
    current: usize,
    bit: bool,
)
    ensures
        !(count1_feed(nodes, root, current, bit).0 is NeedMoreBits) ==> count1_feed(
            nodes,
            root,
            current,
            bit,
        ).1 == root,
        count1_feed(nodes, root, current, bit).0 is NeedMoreBits ==> ({
            let next = count1_feed(nodes, root, current, bit).1;
            &&& next < nodes.len()
            &&& nodes[current as int].branch(bit) == Some(next)
            &&& nodes[next as int].value() is None
        }),
{
}

/// The node reached from node `cur` of a count1 tree by following the
/// branch of each bit of `s` in turn; `None` where a branch is missing or
/// leads outside the tree.
pub open spec fn count1_path(nodes: Seq<Count1HuffmanTableNode>, cur: usize, s: Seq<bool>) -> Option<
    usize,
>
    decreases s.len(),
{
    if s.len() == 0 {
        Some(cur)
    } else if cur >= nodes.len() {
        None
    } else {
        match nodes[cur as int].branch(s[0]) {
            None => None,
            Some(next) => if next >= nodes.len() {
                None
            } else {
                count1_path(nodes, next, s.drop_first())
            },
        }
    }
}

/// The results of feeding the bits `s` one at a time to a walk of a count1
/// tree that is at node `cur`, and the node the walk is at after them.
pub open spec fn count1_feeds(
    nodes: Seq<Count1HuffmanTableNode>,
    root: usize,
    cur: usize,
    s: Seq<bool>,
) -> (Seq<Count1HuffmanDecoderResult>, usize)
    decreases s.len(),
{
    if s.len() == 0 {
        (Seq::empty(), cur)
    } else {
        let (r, next) = count1_feed(nodes, root, cur, s[0]);
        let (rs, end) = count1_feeds(nodes, root, next, s.drop_first());
        (seq![r] + rs, end)
    }
}

/// Feeding a count1 code word: when the bits `s` lead from node `cur`
/// through inner nodes to a leaf whose value is `v`, feeding them one at a
/// time gives `NeedMoreBits` for each bit but the last, then `Valid(v)`, and
/// the walk is back at the root, where a new walk starts.
pub proof fn law_count1_code_word(
    nodes: Seq<Count1HuffmanTableNode>,
    root: usize,
    cur: usize,
    s: Seq<bool>,
    v: Count1HuffmanTableNodeValue,
)
    requires
        s.len() > 0,
        count1_path(nodes, cur, s) matches Some(n) && n < nodes.len() && nodes[n as int].value()
            == Some(v),
        forall|k: int|
            0 < k < s.len() ==> ((#[trigger] count1_path(nodes, cur, s.take(k))) matches Some(m)
                && m < nodes.len() && nodes[m as int].value() is None),
    ensures
        count1_feeds(nodes, root, cur, s) == (
            Seq::new(
                s.len(),
                |i: int|
                    if i + 1 < s.len() {
                        Count1HuffmanDecoderResult::NeedMoreBits
                    } else {
                        Count1HuffmanDecoderResult::Valid(v)
                    },
            ),
            root,
        ),
    decreases s.len(),
{
    reveal_with_fuel(count1_path, 2);
    reveal_with_fuel(count1_feeds, 2);
    let t = s.drop_first();
    let next = nodes[cur as int].branch(s[0]).unwrap();
    assert(cur < nodes.len());
    assert(next < nodes.len());
    if s.len() == 1 {
        assert(t =~= Seq::<bool>::empty());
        assert(count1_path(nodes, next, t) == Some(next));
        assert(count1_feed(nodes, root, cur, s[0]) == (Count1HuffmanDecoderResult::Valid(v), root));
        assert(count1_feeds(nodes, root, root, t) == (
            Seq::<Count1HuffmanDecoderResult>::empty(),
            root,
        ));
        assert(count1_feeds(nodes, root, cur, s).0 =~= Seq::new(
            s.len(),
            |i: int|
                if i + 1 < s.len() {
                    Count1HuffmanDecoderResult::NeedMoreBits
                } else {
                    Count1HuffmanDecoderResult::Valid(v)
                },
        ));
    } else {
        assert(s.take(1).drop_first() =~= Seq::<bool>::empty());
        assert(s.take(1)[0] == s[0]);
        assert(count1_path(nodes, cur, s.take(1)) matches Some(m) && m < nodes.len()
            && nodes[m as int].value() is None);
        assert forall|k: int| 0 < k < t.len() implies ((#[trigger] count1_path(
            nodes,
            next,
            t.take(k),
        )) matches Some(m) && m < nodes.len() && nodes[m as int].value() is None) by {
            assert(s.take(k + 1).drop_first() =~= t.take(k));
            assert(s.take(k + 1)[0] == s[0]);
            assert(count1_path(nodes, cur, s.take(k + 1)) matches Some(m) && m < nodes.len()
                && nodes[m as int].value() is None);
        }
        assert(count1_feed(nodes, root, cur, s[0]) == (
            Count1HuffmanDecoderResult::NeedMoreBits,
            next,
        ));
        law_count1_code_word(nodes, root, next, t, v);
        assert(count1_feeds(nodes, root, cur, s).0 =~= Seq::new(
            s.len(),
            |i: int|
                if i + 1 < s.len() {
                    Count1HuffmanDecoderResult::NeedMoreBits
                } else {
                    Count1HuffmanDecoderResult::Valid(v)
                },
        ));
    }
}

impl<'a> Count1HuffmanDecoder<'a> {
    /// The tree being walked.
    pub closed spec fn tree(&self) -> &'a Count1HuffmanTable {
        self.table
    }

    /// The node the walk is at.
    pub closed spec fn at(&self) -> usize {
        self.current
    }

    /// A walk of `table` at its root.
    pub fn new(table: &'a Count1HuffmanTable) -> (r: Self)
        ensures
            r.tree() == table,
            r.at() == table.root_index(),
    {
        Count1HuffmanDecoder { table, current: table.root }
    }

    fn reset(&mut self)
        ensures
            final(self).tree() == old(self).tree(),
            final(self).at() == old(self).tree().root_index(),
    {
        self.current = self.table.root;
    }

    /// Follows one bit of a code.
    pub fn feed(&mut self, bit: bool) -> (r: Count1HuffmanDecoderResult)
        ensures
            final(self).tree() == old(self).tree(),
            (r, final(self).at()) == count1_feed(
                old(self).tree().node_seq(),
                old(self).tree().root_index(),
                old(self).at(),
                bit,
            ),
    {
        if self.current >= self.table.nodes.len() {
            self.reset();
            return Count1HuffmanDecoderResult::InvalidCode;
        }
        let node = self.table.nodes[self.current];
        let next = if bit {
            node.tr1
        } else {
            node.tr0
        };
        let next = match next {
            Some(n) => n,
            None => {
                self.reset();
                return Count1HuffmanDecoderResult::InvalidCode;
            },
        };
        if next >= self.table.nodes.len() {
            self.reset();
            return Count1HuffmanDecoderResult::InvalidCode;
        }
        let next_node = self.table.nodes[next];
        self.current = next;
        match next_node.data {
            Some(data) => {
                self.reset();
                Count1HuffmanDecoderResult::Valid(data)
            },
            None => Count1HuffmanDecoderResult::NeedMoreBits,
        }
    }
}

/// The Huffman trees a Layer III decoder works with: those of the
/// big-values tables, by `table_select` value, and the two count1 tables
/// (A and B), by `count1table_select`.
pub struct HuffmanTables {
    pub big: Vec<BigHuffmanTable>,
    pub count1: Vec<Count1HuffmanTable>,
}

/// The trees of a `HuffmanTables`: the big-values ones, then the count1 ones.
pub type TableSet = (Seq<BigHuffmanTable>, Seq<Count1HuffmanTable>);

impl View for HuffmanTables {
    type V = TableSet;

    open spec fn view(&self) -> TableSet {
        (self.big@, self.count1@)
    }
}

} // verus!
