//! Why appending a leaf keeps a rope well formed: the weights stay exact, the
//! tree keeps the shape of a binary counter, and the cached path keeps leading
//! to the last leaf.

use vstd::prelude::*;
use vstd::arithmetic::power2::{lemma2_to64, lemma_pow2_pos, lemma_pow2_unfold, pow2};
use crate::rope::{
    Directions, Rope, RopeNode, append_leaf, build_from, fits_along, grow_along, last_left, node_at,
};
use crate::text::{
    bytes, joined, lemma_joined_concat, lemma_joined_single, lemma_locate_in_range, locate,
};

verus! {

/// The two weights of a well-formed node add up to the size of its text.
pub proof fn lemma_weights_sum(n: RopeNode)
    requires
        n.wf(),
    ensures
        n.weight + n.right_weight == n.size(),
        n.content is None ==> n.size() == joined(RopeNode::opt_leaves(n.left_node)).len() + joined(
            RopeNode::opt_leaves(n.right_node),
        ).len(),
{
    match n.content {
        Some(s) => {
            lemma_joined_single(s);
        },
        None => {
            lemma_joined_concat(RopeNode::opt_leaves(n.left_node), RopeNode::opt_leaves(n.right_node));
        },
    }
}

/// Adding `w` along any path of a well-formed node stays within `u32` when
/// its size plus `w` does.
pub proof fn lemma_fits_along(n: RopeNode, p: Seq<Directions>, w: int)
    requires
        n.wf(),
        0 <= w,
        n.size() + w <= u32::MAX,
    ensures
        fits_along(n, p, w),
    decreases p.len(),
{
    lemma_weights_sum(n);
    if p.len() > 0 {
        let child = if p[0] == Directions::LEFT { n.left_node } else { n.right_node };
        match child {
            Some(c) => {
                lemma_weights_sum(*c);
                lemma_fits_along(*c, p.drop_first(), w);
            },
            None => {},
        }
    }
}

/// A counter-shaped node whose last path turns right at every step is full.
pub proof fn lemma_all_right_is_full(n: RopeNode)
    requires
        n.counter_shaped(),
        forall|j: int| 0 <= j < n.last_path().len() ==> n.last_path()[j] == Directions::RIGHT,
    ensures
        n.full(),
    decreases n,
{
    if n.content is None {
        match n.right_node {
            Some(r) => {
                assert forall|j: int| 0 <= j < r.last_path().len() implies r.last_path()[j]
                    == Directions::RIGHT by {
                    assert(n.last_path()[j + 1] == r.last_path()[j]);
                }
                lemma_all_right_is_full(*r);
            },
            None => {
                let l = n.left_node.unwrap();
                assert(n.last_path()[0] == Directions::LEFT);
            },
        }
    }
}

/// The node where the new leaf goes: `j` with `chain` hung as its right child.
pub open spec fn hung(j: RopeNode, chain: RopeNode, w: int) -> RopeNode {
    RopeNode { right_node: Some(Box::new(chain)), right_weight: w as u32, ..j }
}

/// Below the deepest left turn of the last path sits an internal node with no
/// right child.
pub proof fn lemma_junction(n: RopeNode, k: int)
    requires
        n.wf(),
        0 <= k < n.last_path().len(),
        n.last_path()[k] == Directions::LEFT,
    ensures
        node_at(n, n.last_path().subrange(0, k)) is Some,
        ({
            let j = node_at(n, n.last_path().subrange(0, k)).unwrap();
            &&& j.content is None
            &&& j.right_node is None
            &&& j.right_weight == 0
            &&& j.layer == n.layer - k
            &&& j.layer >= 1
        }),
    decreases k,
{
    let p = n.last_path().subrange(0, k);
    if k == 0 {
        assert(p =~= Seq::<Directions>::empty());
        if n.right_node is Some {
            assert(n.last_path()[0] == Directions::RIGHT);
        }
    } else {
        let q = p.drop_first();
        if n.right_node is Some {
            let r = n.right_node.unwrap();
            assert(n.last_path() == seq![Directions::RIGHT] + r.last_path());
            assert(q =~= r.last_path().subrange(0, k - 1));
            assert(r.last_path()[k - 1] == n.last_path()[k]);
            lemma_junction(*r, k - 1);
            assert(node_at(n, p) == node_at(*r, q));
        } else {
            let l = n.left_node.unwrap();
            assert(n.last_path() == seq![Directions::LEFT] + l.last_path());
            assert(q =~= l.last_path().subrange(0, k - 1));
            assert(l.last_path()[k - 1] == n.last_path()[k]);
            lemma_junction(*l, k - 1);
            assert(node_at(n, p) == node_at(*l, q));
        }
    }
}

/// Hanging a chain that ends in one leaf under the node where the last path
/// last turns left, and adding its size along the way, appends that leaf.
pub proof fn lemma_grow(n: RopeNode, k: int, w: int, chain: RopeNode)
    requires
        n.wf(),
        n.counter_shaped(),
        0 <= k < n.last_path().len(),
        n.last_path()[k] == Directions::LEFT,
        forall|j: int| k < j < n.last_path().len() ==> n.last_path()[j] == Directions::RIGHT,
        chain.wf(),
        chain.counter_shaped(),
        chain.size() == w,
        chain.layer == n.layer - k - 1,
        n.size() + w <= u32::MAX,
    ensures
        ({
            let p = n.last_path().subrange(0, k);
            let g = grow_along(n, p, w, hung(node_at(n, p).unwrap(), chain, w));
            &&& g.wf()
            &&& g.counter_shaped()
            &&& g.leaves() == n.leaves() + chain.leaves()
            &&& g.last_path() == p + seq![Directions::RIGHT] + chain.last_path()
            &&& g.layer == n.layer
        }),
    decreases k,
{
    let p = n.last_path().subrange(0, k);
    lemma_junction(n, k);
    lemma_weights_sum(n);
    lemma_weights_sum(chain);
    if k == 0 {
        assert(p =~= Seq::<Directions>::empty());
        let l = n.left_node.unwrap();
        assert(n.content is None);
        assert(n.right_node is None);
        assert(n.last_path() == seq![Directions::LEFT] + l.last_path());
        assert forall|j: int| 0 <= j < l.last_path().len() implies l.last_path()[j]
            == Directions::RIGHT by {
            assert(n.last_path()[j + 1] == l.last_path()[j]);
        }
        lemma_all_right_is_full(*l);
        let g = hung(n, chain, w);
        lemma_joined_concat(l.leaves(), chain.leaves());
        assert(n.leaves() =~= l.leaves());
        assert(g.leaves() =~= n.leaves() + chain.leaves());
        assert(g.last_path() =~= p + seq![Directions::RIGHT] + chain.last_path());
    } else {
        let d = n.last_path()[0];
        let q = p.drop_first();
        if n.right_node is Some {
            let r = n.right_node.unwrap();
            assert(n.last_path() == seq![Directions::RIGHT] + r.last_path());
            assert(d == Directions::RIGHT);
            assert(q =~= r.last_path().subrange(0, k - 1));
            assert forall|j: int| k - 1 < j < r.last_path().len() implies r.last_path()[j]
                == Directions::RIGHT by {
                assert(n.last_path()[j + 1] == r.last_path()[j]);
            }
            assert(r.last_path()[k - 1] == n.last_path()[k]);
            lemma_weights_sum(*r);
            lemma_grow(*r, k - 1, w, chain);
            let gr = grow_along(*r, q, w, hung(node_at(*r, q).unwrap(), chain, w));
            assert(node_at(n, p) == node_at(*r, q));
            let g = grow_along(n, p, w, hung(node_at(n, p).unwrap(), chain, w));
            assert(g == RopeNode {
                right_node: Some(Box::new(gr)),
                right_weight: (n.right_weight + w) as u32,
                ..n
            });
            lemma_joined_concat(r.leaves(), chain.leaves());
            let l = n.left_node.unwrap();
            assert(g.leaves() =~= n.leaves() + chain.leaves()) by {
                assert(n.leaves() == l.leaves() + r.leaves());
                assert(g.leaves() == l.leaves() + gr.leaves());
            }
            assert(g.last_path() =~= p + seq![Directions::RIGHT] + chain.last_path()) by {
                assert(g.last_path() == seq![Directions::RIGHT] + gr.last_path());
            }
        } else {
            let l = n.left_node.unwrap();
            assert(n.last_path() == seq![Directions::LEFT] + l.last_path());
            assert(d == Directions::LEFT);
            assert(q =~= l.last_path().subrange(0, k - 1));
            assert forall|j: int| k - 1 < j < l.last_path().len() implies l.last_path()[j]
                == Directions::RIGHT by {
                assert(n.last_path()[j + 1] == l.last_path()[j]);
            }
            assert(l.last_path()[k - 1] == n.last_path()[k]);
            lemma_weights_sum(*l);
            lemma_grow(*l, k - 1, w, chain);
            let gl = grow_along(*l, q, w, hung(node_at(*l, q).unwrap(), chain, w));
            assert(node_at(n, p) == node_at(*l, q));
            let g = grow_along(n, p, w, hung(node_at(n, p).unwrap(), chain, w));
            assert(g == RopeNode {
                left_node: Some(Box::new(gl)),
                weight: (n.weight + w) as u32,
                ..n
            });
            lemma_joined_concat(l.leaves(), chain.leaves());
            assert(g.leaves() =~= n.leaves() + chain.leaves()) by {
                assert(n.leaves() =~= l.leaves());
                assert(g.leaves() =~= gl.leaves());
            }
            assert(g.last_path() =~= p + seq![Directions::RIGHT] + chain.last_path()) by {
                assert(g.last_path() == seq![Directions::LEFT] + gl.last_path());
            }
        }
    }
}

/// The last path of a well-formed node has one step per layer.
pub proof fn lemma_last_path_len(n: RopeNode)
    requires
        n.wf(),
    ensures
        n.last_path().len() == n.layer,
    decreases n,
{
    if n.content is None {
        match n.right_node {
            Some(r) => lemma_last_path_len(*r),
            None => lemma_last_path_len(*n.left_node.unwrap()),
        }
    }
}

/// Where `p` turns right at every step from `i` on, and left at step `i - 1`,
/// its last left step is at `i - 1`.
pub proof fn lemma_last_left(p: Seq<Directions>, i: int)
    requires
        0 <= i <= p.len(),
        forall|j: int| i <= j < p.len() ==> p[j] == Directions::RIGHT,
        i > 0 ==> p[i - 1] == Directions::LEFT,
    ensures
        last_left(p) == i - 1,
    decreases p.len(),
{
    if p.len() > 0 && i < p.len() {
        assert(p.last() == Directions::RIGHT);
        lemma_last_left(p.drop_last(), i);
    }
}

/// A well-formed node has at least one leaf.
pub proof fn lemma_has_leaf(n: RopeNode)
    requires
        n.wf(),
    ensures
        n.leaves().len() >= 1,
    decreases n,
{
    if n.content is None {
        lemma_has_leaf(*n.left_node.unwrap());
    }
}

/// A full, well-formed node has more leaves than layers.
pub proof fn lemma_full_leaves(n: RopeNode)
    requires
        n.wf(),
        n.full(),
    ensures
        n.leaves().len() >= n.layer + 1,
    decreases n,
{
    if n.content is None {
        lemma_full_leaves(*n.left_node.unwrap());
        lemma_full_leaves(*n.right_node.unwrap());
    }
}

/// A rope is never taller than its number of leaves, so appending one leaf at
/// a time keeps the height within reach of a `u32`.
pub proof fn lemma_height_bound(rope: Rope)
    requires
        rope.wf(),
    ensures
        rope.height() <= rope.leaves().len(),
        rope.head is Some ==> rope.height() < rope.leaves().len(),
{
    if rope.head is Some {
        let h = *rope.head.unwrap();
        assert(rope.leaves() == h.leaves());
        if h.content is None {
            let l = *h.left_node.unwrap();
            let r = *h.right_node.unwrap();
            lemma_full_leaves(l);
            lemma_has_leaf(r);
            assert(h.leaves() == l.leaves() + r.leaves());
        }
    }
}

/// `p` read as a binary numeral, first step most significant, a right step
/// a one and a left step a zero.
pub open spec fn binary_value(p: Seq<Directions>) -> nat
    decreases p.len(),
{
    if p.len() == 0 {
        0
    } else {
        (if p[0] == Directions::RIGHT {
            pow2((p.len() - 1) as nat)
        } else {
            0
        }) + binary_value(p.drop_first())
    }
}

/// A full, well-formed node of layer `h` has `2^h` leaves.
pub proof fn lemma_full_count(n: RopeNode)
    requires
        n.wf(),
        n.full(),
    ensures
        n.leaves().len() == pow2(n.layer as nat),
    decreases n,
{
    if n.content is Some {
        lemma2_to64();
    } else {
        let l = *n.left_node.unwrap();
        let r = *n.right_node.unwrap();
        lemma_full_count(l);
        lemma_full_count(r);
        lemma_pow2_unfold(n.layer as nat);
        assert(n.leaves() == l.leaves() + r.leaves());
    }
}

/// Under a counter-shaped, well-formed node of layer `h`, the last path read
/// in binary is one less than the number of leaves, which is below `2^h`.
pub proof fn lemma_counter_count(n: RopeNode)
    requires
        n.wf(),
        n.counter_shaped(),
    ensures
        n.leaves().len() == binary_value(n.last_path()) + 1,
        binary_value(n.last_path()) < pow2(n.layer as nat),
    decreases n,
{
    if n.content is Some {
        lemma2_to64();
    } else {
        let l = *n.left_node.unwrap();
        lemma_pow2_unfold(n.layer as nat);
        match n.right_node {
            Some(rb) => {
                let r = *rb;
                lemma_full_count(l);
                lemma_counter_count(r);
                lemma_last_path_len(r);
                let q = seq![Directions::RIGHT] + r.last_path();
                assert(q.drop_first() =~= r.last_path());
                assert(n.leaves() == l.leaves() + r.leaves());
            },
            None => {
                lemma_counter_count(l);
                lemma_last_path_len(l);
                lemma_pow2_pos((n.layer - 1) as nat);
                let q = seq![Directions::LEFT] + l.last_path();
                assert(q.drop_first() =~= l.last_path());
                assert(n.leaves() =~= l.leaves());
            },
        }
    }
}

/// A rope grows as a binary counter: its cached path, read in binary, is one
/// less than the number of leaves `n`, and its height `h` is the least with
/// `n <= 2^h`.
pub proof fn lemma_binary_counter(rope: Rope)
    requires
        rope.wf(),
        rope.head is Some,
    ensures
        rope.path_to_last@.len() == rope.height(),
        rope.leaves().len() == binary_value(rope.path_to_last@) + 1,
        rope.leaves().len() <= pow2(rope.height() as nat),
        rope.height() > 0 ==> pow2((rope.height() - 1) as nat) < rope.leaves().len(),
{
    let h = *rope.head.unwrap();
    lemma_last_path_len(h);
    lemma_counter_count(h);
    assert(rope.leaves() == h.leaves());
    if h.content is None {
        let r = *h.right_node.unwrap();
        let q = seq![Directions::RIGHT] + r.last_path();
        assert(q.drop_first() =~= r.last_path());
        assert(q[0] == Directions::RIGHT);
    }
}

/// The rope built from `leaves` followed by `s` is the one built from
/// `leaves`, with `s` appended.
pub proof fn lemma_build_from_push(leaves: Seq<String>, s: String)
    ensures
        build_from(leaves.push(s)) == append_leaf(build_from(leaves).0, build_from(leaves).1, s),
{
    assert(leaves.push(s).drop_last() =~= leaves);
    assert(leaves.push(s).last() == s);
}

/// In a well-formed rope the two weights of the root add up to the length of
/// the whole text, so they count every byte built from or appended since.
pub proof fn lemma_root_weights(rope: Rope)
    requires
        rope.wf(),
    ensures
        rope.head is Some ==> rope.head.unwrap().weight + rope.head.unwrap().right_weight
            == rope.text().len(),
        rope.head is None ==> rope.text().len() == 0,
{
    if rope.head is Some {
        lemma_weights_sum(*rope.head.unwrap());
    }
}

/// Every position before the end of the text is located in a leaf that has a
/// byte at the offset found, and that byte is the one at the position; this is
/// the leaf and offset that `Rope::search` reports.
pub proof fn lemma_search_finds_byte(rope: Rope, i: int)
    requires
        rope.wf(),
        0 <= i < rope.text().len(),
    ensures
        ({
            let (k, o) = locate(rope.leaves(), i);
            &&& 0 <= k < rope.leaves().len()
            &&& 0 <= o < bytes(rope.leaves()[k]).len()
            &&& bytes(rope.leaves()[k])[o] == rope.text()[i]
        }),
{
    lemma_locate_in_range(rope.leaves(), i);
}

} // verus!
