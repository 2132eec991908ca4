//! The rope itself: its nodes and the invariants they keep, and building,
//! appending to and searching a rope.

use vstd::prelude::*;
use vstd::string::StringSliceAdditionalSpecFns;
use crate::growth::{
    hung, lemma_all_right_is_full, lemma_fits_along, lemma_grow, lemma_height_bound,
    lemma_junction, lemma_last_left, lemma_last_path_len, lemma_weights_sum,
};
use crate::text::{
    bytes, chunks, cuts_on_chars, joined, leaf_bytes, lemma_joined_concat, lemma_joined_push,
    lemma_joined_single, lemma_locate_concat,
    locate,
};

verus! {

/// One step of a path from the root of a rope towards a leaf.
#[derive(Debug, Clone, Copy, PartialEq, Eq, Structural)]
pub enum Directions {
    RIGHT,
    LEFT,
}

impl Directions {
    /// The name of the step, in capitals.
    pub fn name(&self) -> (r: &'static str)
        ensures
            r@ == (if *self == Directions::RIGHT {
                "RIGHT"@
            } else {
                "LEFT"@
            }),
    {
        if *self == Directions::RIGHT {
            "RIGHT"
        } else {
            "LEFT"
        }
    }
}

/// Raised when a path asks for a child that the tree does not have.
#[derive(Debug, Clone, Copy)]
pub struct BadPath;

impl BadPath {
    pub fn message(&self) -> (r: &'static str)
        ensures
            r@ == "The path given cannot be followed"@,
    {
        "The path given cannot be followed"
    }
}

pub struct RopeNode {
    pub left_node: Option<Box<RopeNode>>,
    pub right_node: Option<Box<RopeNode>>,
    pub layer: u32,
    /// Byte length of the text under the left child (of the content, for a leaf).
    pub weight: u32,
    /// Byte length of the text under the right child.
    pub right_weight: u32,
    pub content: Option<String>,
}

/// The node reached from `n` by following `p`, if every step has a child.
pub open spec fn node_at(n: RopeNode, p: Seq<Directions>) -> Option<RopeNode>
    decreases p.len(),
{
    if p.len() == 0 {
        Some(n)
    } else {
        let child = if p[0] == Directions::LEFT { n.left_node } else { n.right_node };
        match child {
            Some(c) => node_at(*c, p.drop_first()),
            None => None,
        }
    }
}

/// `n` with the node at the end of `p` replaced by `sub`, and `w` added to the
/// weight on the side of each step taken on the way.
pub open spec fn grow_along(n: RopeNode, p: Seq<Directions>, w: int, sub: RopeNode) -> RopeNode
    decreases p.len(),
{
    if p.len() == 0 {
        sub
    } else if p[0] == Directions::LEFT {
        match n.left_node {
            Some(c) => RopeNode {
                left_node: Some(Box::new(grow_along(*c, p.drop_first(), w, sub))),
                weight: (n.weight + w) as u32,
                ..n
            },
            None => n,
        }
    } else {
        match n.right_node {
            Some(c) => RopeNode {
                right_node: Some(Box::new(grow_along(*c, p.drop_first(), w, sub))),
                right_weight: (n.right_weight + w) as u32,
                ..n
            },
            None => n,
        }
    }
}

pub open spec fn fits_along(n: RopeNode, p: Seq<Directions>, w: int) -> bool
    decreases p.len(),
{
    if p.len() == 0 {
        true
    } else if p[0] == Directions::LEFT {
        match n.left_node {
            Some(c) => n.weight + w <= u32::MAX && fits_along(*c, p.drop_first(), w),
            None => true,
        }
    } else {
        match n.right_node {
            Some(c) => n.right_weight + w <= u32::MAX && fits_along(*c, p.drop_first(), w),
            None => true,
        }
    }
}

impl RopeNode {
    /// The contents of the leaves under this node, left to right.
    pub open spec fn leaves(self) -> Seq<String>
        decreases self,
    {
        match self.content {
            Some(s) => seq![s],
            None => RopeNode::opt_leaves(self.left_node) + RopeNode::opt_leaves(self.right_node),
        }
    }

    pub open spec fn opt_leaves(n: Option<Box<RopeNode>>) -> Seq<String>
        decreases n,
    {
        match n {
            Some(c) => c.leaves(),
            None => Seq::empty(),
        }
    }

    /// Byte length of the text under this node.
    pub open spec fn size(self) -> int {
        joined(self.leaves()).len() as int
    }

    /// A leaf holds content and no children; an internal node holds a left
    /// child, maybe a right one, and no content. Children sit one layer lower,
    /// so all leaves are at layer 0, and the weights are the byte lengths
    /// under each side.
    pub open spec fn wf(self) -> bool
        decreases self,
    {
        match self.content {
            Some(s) => {
                &&& self.left_node is None
                &&& self.right_node is None
                &&& self.layer == 0
                &&& self.weight == bytes(s).len()
                &&& self.right_weight == 0
            },
            None => {
                &&& self.layer >= 1
                &&& match self.left_node {
                    None => false,
                    Some(l) => {
                        &&& l.wf()
                        &&& l.layer == self.layer - 1
                        &&& self.weight == l.size()
                    },
                }
                &&& match self.right_node {
                    None => self.right_weight == 0,
                    Some(r) => {
                        &&& r.wf()
                        &&& r.layer == self.layer - 1
                        &&& self.right_weight == r.size()
                    },
                }
            },
        }
    }

    /// Every internal node below has both children.
    pub open spec fn full(self) -> bool
        decreases self,
    {
        match self.content {
            Some(_) => true,
            None => match self.left_node {
                None => false,
                Some(l) => match self.right_node {
                    None => false,
                    Some(r) => l.full() && r.full(),
                },
            },
        }
    }

    /// The shape of a binary counter: a node with a right child has a full
    /// left subtree, so only the right-most spine has spare room.
    pub open spec fn counter_shaped(self) -> bool
        decreases self,
    {
        match self.content {
            Some(_) => true,
            None => match self.left_node {
                None => false,
                Some(l) => match self.right_node {
                    None => l.counter_shaped(),
                    Some(r) => l.full() && r.counter_shaped(),
                },
            },
        }
    }

    /// The steps from this node down to its last leaf: right where there is a
    /// right child, else left.
    pub open spec fn last_path(self) -> Seq<Directions>
        decreases self,
    {
        match self.content {
            Some(_) => Seq::empty(),
            None => match self.right_node {
                Some(r) => seq![Directions::RIGHT] + r.last_path(),
                None => match self.left_node {
                    Some(l) => seq![Directions::LEFT] + l.last_path(),
                    None => Seq::empty(),
                },
            },
        }
    }

    pub fn new_empty(n_weight: u32, n_right_weight: u32, n_layer: u32) -> (node: RopeNode)
        ensures
            node == (RopeNode {
                left_node: None,
                right_node: None,
                layer: n_layer,
                weight: n_weight,
                right_weight: n_right_weight,
                content: None,
            }),
    {
        RopeNode {
            left_node: None,
            right_node: None,
            layer: n_layer,
            weight: n_weight,
            right_weight: n_right_weight,
            content: None,
        }
    }

    /// A leaf holding `string`, weighed by its byte length.
    pub fn new_with_content(string: String) -> (node: RopeNode)
        requires
            bytes(string).len() <= u32::MAX,
        ensures
            node == (RopeNode {
                left_node: None,
                right_node: None,
                layer: 0,
                weight: bytes(string).len() as u32,
                right_weight: 0,
                content: Some(string),
            }),
            node.wf(),
            node.leaves() == seq![string],
    {
        let len = string.as_str().len() as u32;
        RopeNode {
            left_node: None,
            right_node: None,
            layer: 0,
            weight: len,
            right_weight: 0,
            content: Some(string),
        }
    }

    pub fn fill_content(&mut self, content: String)
        ensures
            *final(self) == (RopeNode { content: Some(content), ..*old(self) }),
    {
        self.content = Some(content);
    }

    pub fn empty_content(&mut self)
        ensures
            *final(self) == (RopeNode { content: None, ..*old(self) }),
    {
        self.content = None;
    }

    pub fn assign_left_node(&mut self, node: Box<RopeNode>)
        ensures
            *final(self) == (RopeNode { left_node: Some(node), ..*old(self) }),
    {
        self.left_node = Some(node);
    }

    pub fn empty_left_node(&mut self)
        ensures
            *final(self) == (RopeNode { left_node: None, ..*old(self) }),
    {
        self.left_node = None;
    }

    pub fn assign_right_node(&mut self, node: Box<RopeNode>)
        ensures
            *final(self) == (RopeNode { right_node: Some(node), ..*old(self) }),
    {
        self.right_node = Some(node);
    }

    pub fn empty_right_node(&mut self)
        ensures
            *final(self) == (RopeNode { right_node: None, ..*old(self) }),
    {
        self.right_node = None;
    }

    /// `leaf` under `height` new internal nodes, each the left child of the
    /// one above it.
    fn build_chain(leaf: RopeNode, height: u32) -> (chain: RopeNode)
        requires
            leaf.wf(),
            leaf.content is Some,
        ensures
            chain.wf(),
            chain.counter_shaped(),
            chain.layer == height,
            chain.leaves() == leaf.leaves(),
            chain.last_path() == lefts(height as nat),
            chain == chain_of(leaf, height as nat),
    {
        let w = leaf.weight;
        let ghost leaves = leaf.leaves();
        proof {
            crate::text::lemma_joined_single(leaf.content.unwrap());
        }
        let mut node = leaf;
        let mut h: u32 = 0;
        while h < height
            invariant
                h <= height,
                node.wf(),
                node.counter_shaped(),
                node.layer == h,
                node.leaves() == leaves,
                node.size() == w,
                node.last_path() == lefts(h as nat),
                node == chain_of(leaf, h as nat),
                w == leaf.weight,
            decreases height - h,
        {
            let mut parent = RopeNode::new_empty(w, 0, h + 1);
            parent.assign_left_node(Box::new(node));
            proof {
                assert(parent.leaves() =~= leaves);
                assert(parent.last_path() =~= lefts((h + 1) as nat));
            }
            node = parent;
            h = h + 1;
        }
        node
    }
}

/// `n` steps to the left.
pub open spec fn lefts(n: nat) -> Seq<Directions> {
    Seq::new(n, |_i: int| Directions::LEFT)
}

/// The leaf that holds `s`.
pub open spec fn leaf_of(s: String) -> RopeNode {
    RopeNode {
        left_node: None,
        right_node: None,
        layer: 0,
        weight: bytes(s).len() as u32,
        right_weight: 0,
        content: Some(s),
    }
}

/// `leaf` under `h` internal nodes, each the only (left) child of the one above.
pub open spec fn chain_of(leaf: RopeNode, h: nat) -> RopeNode
    decreases h,
{
    if h == 0 {
        leaf
    } else {
        RopeNode {
            left_node: Some(Box::new(chain_of(leaf, (h - 1) as nat))),
            right_node: None,
            layer: h as u32,
            weight: leaf.weight,
            right_weight: 0,
            content: None,
        }
    }
}

/// The index of the last left step of `p`, or -1 when it has none.
pub open spec fn last_left(p: Seq<Directions>) -> int
    decreases p.len(),
{
    if p.len() == 0 {
        -1
    } else if p.last() == Directions::LEFT {
        p.len() - 1
    } else {
        last_left(p.drop_last())
    }
}

/// The root and the cached path after appending `s` to the rope with root
/// `head` and cached path `path`. An empty rope gets `s` as its root leaf.
/// Where the path turns left, the last such turn leads to the junction: the
/// weights on the way to it grow by the length of `s`, and `s` hangs as its
/// right child under a chain down to the leaves' layer. Where the path never
/// turns left, a new root takes the old one as its left child and the chain
/// as its right child.
pub open spec fn append_leaf(head: Option<Box<RopeNode>>, path: Seq<Directions>, s: String) -> (
    Option<Box<RopeNode>>,
    Seq<Directions>,
) {
    let leaf = leaf_of(s);
    let w = bytes(s).len() as int;
    match head {
        None => (Some(Box::new(leaf)), Seq::empty()),
        Some(root) => {
            let k = last_left(path);
            if k < 0 {
                (
                    Some(
                        Box::new(
                            RopeNode {
                                left_node: Some(root),
                                right_node: Some(Box::new(chain_of(leaf, root.layer as nat))),
                                layer: (root.layer + 1) as u32,
                                weight: (root.weight + root.right_weight) as u32,
                                right_weight: w as u32,
                                content: None,
                            },
                        ),
                    ),
                    seq![Directions::RIGHT] + lefts(root.layer as nat),
                )
            } else {
                let p = path.subrange(0, k);
                let j = node_at(*root, p).unwrap();
                let chain = chain_of(leaf, (j.layer - 1) as nat);
                (
                    Some(Box::new(grow_along(*root, p, w, hung(j, chain, w)))),
                    p + seq![Directions::RIGHT] + lefts((j.layer - 1) as nat),
                )
            }
        },
    }
}

/// The root and the cached path of the rope that appending `leaves` one by
/// one, in order, to an empty rope builds.
pub open spec fn build_from(leaves: Seq<String>) -> (Option<Box<RopeNode>>, Seq<Directions>)
    decreases leaves.len(),
{
    if leaves.len() == 0 {
        (None, Seq::empty())
    } else {
        let (head, path) = build_from(leaves.drop_last());
        append_leaf(head, path, leaves.last())
    }
}

/// Appends `n` left steps to `path`.
fn push_lefts(path: &mut Vec<Directions>, n: u32)
    ensures
        final(path)@ == old(path)@ + lefts(n as nat),
{
    let mut i: u32 = 0;
    while i < n
        invariant
            i <= n,
            path@ == old(path)@ + lefts(i as nat),
        decreases n - i,
    {
        path.push(Directions::LEFT);
        i = i + 1;
        assert(path@ =~= old(path)@ + lefts(i as nat));
    }
}

/// A text buffer kept as a tree of leaves, with the path to the leaf that was
/// appended last cached so that the next append does not search for it.
pub struct Rope {
    pub head: Option<Box<RopeNode>>,
    pub path_to_last: Vec<Directions>,
}

impl Rope {
    /// The leaf contents, left to right.
    pub open spec fn leaves(self) -> Seq<String> {
        RopeNode::opt_leaves(self.head)
    }

    /// The bytes of the whole buffer.
    pub open spec fn text(self) -> Seq<u8> {
        joined(self.leaves())
    }

    /// The layer of the root: the number of steps from it to any leaf.
    pub open spec fn height(self) -> int {
        match self.head {
            Some(h) => h.layer as int,
            None => 0,
        }
    }

    /// The tree is well formed and shaped as a binary counter, a root that is
    /// not a leaf has a right child (so no level sits above the tree it
    /// needs), and the cached path leads from the root to the last leaf.
    pub open spec fn wf(self) -> bool {
        match self.head {
            None => self.path_to_last@.len() == 0,
            Some(h) => {
                &&& h.wf()
                &&& h.counter_shaped()
                &&& (h.content is Some || h.right_node is Some)
                &&& self.path_to_last@ == h.last_path()
            },
        }
    }

    /// Whether every cut that `string_to_rope` makes in `input` with this leaf
    /// size falls between two characters.
    pub fn cuts_fall_on_chars(input: &str, leaf_weight: u8) -> (r: bool)
        requires
            input.spec_bytes().len() <= u32::MAX,
        ensures
            r == cuts_on_chars(input.spec_bytes(), leaf_weight as nat),
    {
        if leaf_weight == 0 {
            return true;
        }
        let mut rest: &str = input;
        while rest.len() > leaf_weight as usize
            invariant
                leaf_weight >= 1,
                rest.spec_bytes().len() <= u32::MAX,
                cuts_on_chars(input.spec_bytes(), leaf_weight as nat) == cuts_on_chars(
                    rest.spec_bytes(),
                    leaf_weight as nat,
                ),
            decreases rest.spec_bytes().len(),
        {
            if !rest.is_char_boundary(leaf_weight as usize) {
                return false;
            }
            let (_, tail) = rest.split_at(leaf_weight as usize);
            assert(tail.spec_bytes() =~= rest.spec_bytes().subrange(
                leaf_weight as int,
                rest.spec_bytes().len() as int,
            ));
            rest = tail;
        }
        true
    }

    /// Cuts `input` into leaves of `leaf_weight` bytes, the last one possibly
    /// shorter, and appends them in order. An empty input gives an empty rope.
    /// Each cut must fall between two characters.
    pub fn string_to_rope(input: String, leaf_weight: u8) -> (rope: Rope)
        requires
            leaf_weight >= 1,
            bytes(input).len() <= u32::MAX,
            cuts_on_chars(bytes(input), leaf_weight as nat),
        ensures
            rope.wf(),
            leaf_bytes(rope.leaves()) == chunks(bytes(input), leaf_weight as nat),
            rope.text() == bytes(input),
            (rope.head, rope.path_to_last@) == build_from(rope.leaves()),
            rope.height() <= rope.leaves().len(),
    {
        let ghost n = leaf_weight as nat;
        let ghost all = bytes(input);
        let mut new_rope = Rope { head: None, path_to_last: Vec::new() };
        let mut rest: &str = input.as_str();
        assert(new_rope.leaves() =~= Seq::<String>::empty());
        assert(new_rope.path_to_last@ =~= Seq::<Directions>::empty());
        assert(leaf_bytes(new_rope.leaves()) + chunks(rest.spec_bytes(), n) =~= chunks(all, n));
        assert(new_rope.text() + rest.spec_bytes() =~= all);
        while rest.len() > leaf_weight as usize
            invariant
                n == leaf_weight as nat,
                n >= 1,
                all.len() <= u32::MAX,
                new_rope.wf(),
                new_rope.text() + rest.spec_bytes() == all,
                leaf_bytes(new_rope.leaves()) + chunks(rest.spec_bytes(), n) == chunks(all, n),
                new_rope.height() <= new_rope.leaves().len(),
                (new_rope.head, new_rope.path_to_last@) == build_from(new_rope.leaves()),
                new_rope.leaves().len() <= new_rope.text().len(),
                cuts_on_chars(rest.spec_bytes(), n),
            decreases rest.spec_bytes().len(),
        {
            let ghost b = rest.spec_bytes();
            let (piece, tail) = rest.split_at(leaf_weight as usize);
            let segment = piece.to_owned();
            assert(bytes(segment) == b.subrange(0, n as int));
            let ghost before = new_rope.leaves();
            new_rope.elongate_rope(segment);
            proof {
                assert(new_rope.leaves().drop_last() =~= before);
                assert(b =~= b.subrange(0, n as int) + tail.spec_bytes());
                assert(chunks(b, n) == seq![b.subrange(0, n as int)] + chunks(tail.spec_bytes(), n));
                assert(leaf_bytes(new_rope.leaves()) =~= leaf_bytes(before).push(bytes(segment)));
                assert(leaf_bytes(new_rope.leaves()) + chunks(tail.spec_bytes(), n) =~= leaf_bytes(
                    before,
                ) + chunks(b, n));
                assert(new_rope.text() + tail.spec_bytes() =~= all);
            }
            rest = tail;
        }
        if rest.len() > 0 {
            let segment = rest.to_owned();
            let ghost before = new_rope.leaves();
            new_rope.elongate_rope(segment);
            proof {
                assert(new_rope.leaves().drop_last() =~= before);
                assert(chunks(rest.spec_bytes(), n) == seq![rest.spec_bytes()]);
                assert(leaf_bytes(new_rope.leaves()) =~= leaf_bytes(before).push(bytes(segment)));
            }
        } else {
            assert(chunks(rest.spec_bytes(), n) =~= Seq::<Seq<u8>>::empty());
        }
        assert(leaf_bytes(new_rope.leaves()) =~= chunks(all, n));
        assert(new_rope.text() =~= all);
        new_rope
    }

    /// The leaf that holds byte `index` of the text, with the position of that
    /// byte in the leaf counted from one; `None` when `index` is past the end.
    /// The position is reported as a `u16`, so it wraps past 65535.
    pub fn search(&self, index: u32) -> (r: Option<(&String, u16)>)
        requires
            self.wf(),
        ensures
            match r {
                None => index >= self.text().len(),
                Some((leaf, offset)) => {
                    let (k, o) = locate(self.leaves(), index as int);
                    &&& index < self.text().len()
                    &&& *leaf == self.leaves()[k]
                    &&& offset == (o + 1) as u16
                },
            },
    {
        let mut current_node: &Box<RopeNode> = match &self.head {
            Some(head_node) => head_node,
            None => return None,
        };
        let mut remaining: u32 = index;
        let ghost target = index as int;
        let ghost all = self.leaves();
        let ghost mut before: Seq<String> = Seq::empty();
        let ghost mut after: Seq<String> = Seq::empty();
        proof {
            assert(all =~= before + current_node.leaves() + after);
        }
        loop
            invariant
                current_node.wf(),
                target == index,
                all == self.leaves(),
                all == before + current_node.leaves() + after,
                remaining == target - joined(before).len(),
                target < joined(all).len() ==> remaining < current_node.size(),
                target < joined(all).len() ==> locate(all, target) == (
                    before.len() + locate(current_node.leaves() + after, remaining as int).0,
                    locate(current_node.leaves() + after, remaining as int).1,
                ),
            decreases current_node.layer,
        {
            let ghost cur = **current_node;
            proof {
                lemma_weights_sum(cur);
                lemma_joined_concat(before, cur.leaves());
                lemma_joined_concat(before + cur.leaves(), after);
            }
            if let Some(leaf) = &current_node.content {
                if remaining < current_node.weight {
                    proof {
                        lemma_joined_single(*leaf);
                        lemma_locate_concat(cur.leaves(), after, remaining as int);
                    }
                    return Some((leaf, (remaining + 1) as u16));
                } else {

                    return None;
                }
            }
            let ghost l = cur.left_node.unwrap();
            let ghost rl = RopeNode::opt_leaves(cur.right_node);
            proof {
                assert(cur.leaves() == l.leaves() + rl);
                lemma_joined_concat(l.leaves(), rl);
            }
            if remaining >= current_node.weight {
                remaining = remaining - current_node.weight;
                match &current_node.right_node {
                    Some(right) => {
                        proof {
                            if target < joined(all).len() {
                                lemma_locate_concat(
                                    l.leaves(),
                                    rl + after,
                                    (remaining + cur.weight) as int,
                                );
                                assert(cur.leaves() + after =~= l.leaves() + (rl + after));
                            }
                            lemma_joined_concat(before, l.leaves());
                            assert(all =~= (before + l.leaves()) + right.leaves() + after);
                            before = before + l.leaves();
                        }
                        current_node = right;
                    },
                    None => return None,
                }
            } else {
                match &current_node.left_node {
                    Some(left) => {
                        proof {
                            if target < joined(all).len() {
                                lemma_locate_concat(l.leaves(), rl + after, remaining as int);
                                assert(cur.leaves() + after =~= l.leaves() + (rl + after));
                            }
                            assert(all =~= before + left.leaves() + (rl + after));
                            after = rl + after;
                        }
                        current_node = left;
                    },
                    None => return None,
                }
            }
        }
    }

    /// The node at the end of `path` from `head`.
    fn follow_path_from<'a>(head: &'a mut Box<RopeNode>, path: &[Directions]) -> (r: Result<
        &'a mut Box<RopeNode>,
        BadPath,
    >)
        ensures
            r is Ok <==> node_at(**old(head), path@) is Some,
            match r {
                Ok(j) => node_at(**old(head), path@) == Some(**j) && **final(head) == grow_along(
                    **old(head),
                    path@,
                    0,
                    **final(j),
                ),
                Err(_) => **final(head) == **old(head),
            },
        decreases path@.len(),
    {
        if path.len() == 0 {
            assert(grow_along(**old(head), path@, 0, **old(head)) == **old(head));
            return Ok(head);
        }
        let rest = &path[1..path.len()];
        assert(rest@ == path@.drop_first());
        let child = if path[0] == Directions::LEFT {
            &mut head.left_node
        } else {
            &mut head.right_node
        };
        match child {
            Some(inner) => Self::follow_path_from(inner, rest),
            None => Err(BadPath),
        }
    }

    /// The node at the end of `path` from the root.
    fn follow_path(&mut self, path: &[Directions]) -> (r: Result<&mut Box<RopeNode>, BadPath>)
        ensures
            r is Ok <==> (old(self).head is Some && node_at(*old(self).head.unwrap(), path@) is Some),
            final(self).path_to_last == old(self).path_to_last,
            match r {
                Ok(j) => node_at(*old(self).head.unwrap(), path@) == Some(**j) && final(self).head
                    == Some(Box::new(grow_along(*old(self).head.unwrap(), path@, 0, **final(j)))),
                Err(_) => final(self).head == old(self).head,
            },
    {
        match &mut self.head {
            Some(head_node) => Self::follow_path_from(head_node, path),
            None => Err(BadPath),
        }
    }

    /// Walks `path` from `node`, adding `weight` on the side taken at each
    /// step, and hands out the node reached. On a missing child nothing changes.
    fn add_weights_from<'a>(node: &'a mut Box<RopeNode>, path: &[Directions], weight: u32) -> (r:
        Result<&'a mut Box<RopeNode>, BadPath>)
        requires
            fits_along(**old(node), path@, weight as int),
        ensures
            r is Ok <==> node_at(**old(node), path@) is Some,
            match r {
                Ok(j) => node_at(**old(node), path@) == Some(**j) && **final(node) == grow_along(
                    **old(node),
                    path@,
                    weight as int,
                    **final(j),
                ),
                Err(_) => **final(node) == **old(node),
            },
        decreases path@.len(),
    {
        if path.len() == 0 {
            return Ok(node);
        }
        let rest = &path[1..path.len()];
        assert(rest@ == path@.drop_first());
        if path[0] == Directions::LEFT {
            match &mut node.left_node {
                Some(inner) => match Self::add_weights_from(inner, rest, weight) {
                    Ok(j) => {
                        node.weight = node.weight + weight;
                        Ok(j)
                    },
                    Err(e) => Err(e),
                },
                None => Err(BadPath),
            }
        } else {
            match &mut node.right_node {
                Some(inner) => match Self::add_weights_from(inner, rest, weight) {
                    Ok(j) => {
                        node.right_weight = node.right_weight + weight;
                        Ok(j)
                    },
                    Err(e) => Err(e),
                },
                None => Err(BadPath),
            }
        }
    }

    /// Walks `path` from the root, adding `weight` on the side taken at each
    /// step, and hands out the node reached.
    fn follow_path_and_add_weights(&mut self, path: &[Directions], weight: u32) -> (r: Result<
        &mut Box<RopeNode>,
        BadPath,
    >)
        requires
            old(self).head is Some ==> fits_along(*old(self).head.unwrap(), path@, weight as int),
        ensures
            r is Ok <==> (old(self).head is Some && node_at(*old(self).head.unwrap(), path@) is Some),
            final(self).path_to_last == old(self).path_to_last,
            match r {
                Ok(j) => node_at(*old(self).head.unwrap(), path@) == Some(**j) && final(self).head
                    == Some(
                    Box::new(grow_along(*old(self).head.unwrap(), path@, weight as int, **final(j))),
                ),
                Err(_) => final(self).head == old(self).head,
            },
    {
        match &mut self.head {
            Some(head_node) => Self::add_weights_from(head_node, path, weight),
            None => Err(BadPath),
        }
    }

    /// Adds `input` as the new last leaf. Below the deepest left turn of the
    /// cached path there is room on the right: the leaf goes there, under a
    /// chain of new nodes down to the leaves' layer. Without a left turn the
    /// tree is full, and a new root takes the old one as its left child.
    pub fn elongate_rope(&mut self, input: String)
        requires
            old(self).wf(),
            old(self).text().len() + bytes(input).len() <= u32::MAX,
            old(self).height() < u32::MAX,
        ensures
            final(self).wf(),
            (final(self).head, final(self).path_to_last@) == append_leaf(
                old(self).head,
                old(self).path_to_last@,
                input,
            ),
            final(self).leaves() == old(self).leaves().push(input),
            final(self).text() == old(self).text() + bytes(input),
            final(self).height() == (if old(self).head is None {
                0
            } else if (forall|j: int|
                0 <= j < old(self).path_to_last@.len() ==> old(self).path_to_last@[j]
                    == Directions::RIGHT) {
                old(self).height() + 1
            } else {
                old(self).height()
            }),
            final(self).height() <= final(self).leaves().len(),
            old(self).head is None ==> final(self).head == Some(Box::new(leaf_of(input)))
                && final(self).path_to_last@.len() == 0,
            old(self).head is Some && (forall|j: int|
                0 <= j < old(self).path_to_last@.len() ==> old(self).path_to_last@[j]
                    == Directions::RIGHT) ==> {
                let h = final(self).head.unwrap();
                &&& h.left_node == old(self).head
                &&& h.weight == old(self).text().len()
                &&& h.right_weight == bytes(input).len()
                &&& final(self).path_to_last@ == seq![Directions::RIGHT] + lefts(
                    old(self).height() as nat,
                )
            },
            last_left(old(self).path_to_last@) >= 0 ==> {
                let k = last_left(old(self).path_to_last@);
                final(self).path_to_last@ == old(self).path_to_last@.subrange(0, k) + seq![
                    Directions::RIGHT,
                ] + lefts((old(self).path_to_last@.len() - k - 1) as nat)
            },
    {
        let ghost segment = input;
        proof {
            lemma_joined_push(old(self).leaves(), segment);
        }
        let new_node = RopeNode::new_with_content(input);
        let new_node_weight = new_node.weight;
        match self.head.take() {
            None => {
                self.head = Some(Box::new(new_node));
                self.path_to_last = Vec::new();
                assert(self.leaves() =~= old(self).leaves().push(segment));
                assert(self.path_to_last@ =~= Seq::<Directions>::empty());
            },
            Some(old_head) => {
                let ghost root = *old_head;
                proof {
                    lemma_weights_sum(root);
                    lemma_joined_single(segment);
                }
                let mut index: usize = self.path_to_last.len();
                loop
                    invariant
                        index <= self.path_to_last@.len(),
                        self.path_to_last@ == root.last_path(),
                        forall|j: int|
                            index <= j < self.path_to_last@.len() ==> self.path_to_last@[j]
                                == Directions::RIGHT,
                    ensures
                        index <= self.path_to_last@.len(),
                        self.path_to_last@ == root.last_path(),
                        forall|j: int|
                            index <= j < self.path_to_last@.len() ==> self.path_to_last@[j]
                                == Directions::RIGHT,
                        index > 0 ==> self.path_to_last@[index - 1] == Directions::LEFT,
                    decreases index,
                {
                    if index == 0 {
                        break;
                    }
                    if self.path_to_last[index - 1] == Directions::LEFT {
                        break;
                    }
                    index = index - 1;
                }
                proof {
                    lemma_last_left(self.path_to_last@, index as int);
                    lemma_last_path_len(root);
                }
                if index > 0 {
                    let k = index - 1;
                    self.head = Some(old_head);
                    let mut path: Vec<Directions> = Vec::new();
                    std::mem::swap(&mut path, &mut self.path_to_last);
                    let ghost p = path@.subrange(0, k as int);
                    proof {
                        lemma_fits_along(root, p, new_node_weight as int);
                        lemma_junction(root, k as int);
                    }
                    let ghost chain_seen: RopeNode;
                    let mut chain_height: u32 = 0;
                    match self.follow_path_and_add_weights(&path[0..k], new_node_weight) {
                        Ok(junction) => {
                            let ghost j0 = **junction;
                            junction.right_weight = junction.right_weight + new_node_weight;
                            chain_height = junction.layer - 1;
                            let chain = RopeNode::build_chain(new_node, chain_height);
                            proof {
                                chain_seen = chain;
                                lemma_grow(root, k as int, new_node_weight as int, chain);
                            }
                            junction.assign_right_node(Box::new(chain));
                            assert(**junction == hung(j0, chain_seen, new_node_weight as int));
                        },
                        // the cached path is the tree's own, so every step has its child
                        Err(_) => {},
                    }
                    assert(self.head == Some(
                        Box::new(
                            grow_along(
                                root,
                                p,
                                new_node_weight as int,
                                hung(node_at(root, p).unwrap(), chain_seen, new_node_weight as int),
                            ),
                        ),
                    ));
                    assert(chain_seen.last_path() == lefts(chain_height as nat));
                    path.truncate(k);
                    path.push(Directions::RIGHT);
                    push_lefts(&mut path, chain_height);
                    self.path_to_last = path;
                    assert(self.path_to_last@ =~= p + seq![Directions::RIGHT] + lefts(
                        chain_height as nat,
                    ));
                    assert(self.leaves() =~= old(self).leaves().push(segment));
                    assert(!(forall|j: int|
                        0 <= j < old(self).path_to_last@.len() ==> old(self).path_to_last@[j]
                            == Directions::RIGHT));
                } else {
                    proof {
                        lemma_all_right_is_full(root);
                    }
                    let old_layer = old_head.layer;
                    let mut new_head = RopeNode::new_empty(
                        old_head.weight + old_head.right_weight,
                        new_node_weight,
                        old_layer + 1,
                    );
                    new_head.assign_left_node(old_head);
                    let chain = RopeNode::build_chain(new_node, old_layer);
                    new_head.assign_right_node(Box::new(chain));
                    proof {
                        lemma_joined_concat(root.leaves(), chain.leaves());
                        assert(new_head.leaves() =~= root.leaves() + chain.leaves());
                        assert(new_head.last_path() =~= seq![Directions::RIGHT] + lefts(
                            old_layer as nat,
                        ));
                    }
                    self.head = Some(Box::new(new_head));
                    let mut path: Vec<Directions> = Vec::new();
                    path.push(Directions::RIGHT);
                    push_lefts(&mut path, old_layer);
                    self.path_to_last = path;
                    assert(self.path_to_last@ =~= seq![Directions::RIGHT] + lefts(old_layer as nat));
                    assert(self.leaves() =~= old(self).leaves().push(segment));
                }
            },
        }
        proof {
            lemma_height_bound(*self);
        }
    }

    /// Makes `new_head` the root, leaving the cached path as it is.
    pub fn assing_head(&mut self, new_head: Box<RopeNode>)
        ensures
            final(self).head == Some(new_head),
            final(self).path_to_last == old(self).path_to_last,
    {
        self.head = Some(new_head);
    }
}

} // verus!
