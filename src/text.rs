//! The text of a sequence of leaves: its bytes, how a position in it maps to a
//! leaf and an offset, and how a byte string is cut into leaves.

use vstd::prelude::*;
use vstd::utf8::encode_utf8;
use vstd::utf8::is_char_boundary;

verus! {

/// The UTF-8 bytes of a string: all lengths and offsets in a rope count these.
pub open spec fn bytes(s: String) -> Seq<u8> {
    encode_utf8(s@)
}

/// The bytes of the leaves, one after the other.
pub open spec fn joined(leaves: Seq<String>) -> Seq<u8>
    decreases leaves.len(),
{
    if leaves.len() == 0 {
        Seq::empty()
    } else {
        bytes(leaves[0]) + joined(leaves.drop_first())
    }
}

/// The bytes of each leaf.
pub open spec fn leaf_bytes(leaves: Seq<String>) -> Seq<Seq<u8>> {
    leaves.map_values(|s: String| bytes(s))
}

/// The leaf that holds byte `i` of `joined(leaves)`, and the zero-based offset
/// of that byte inside the leaf.
pub open spec fn locate(leaves: Seq<String>, i: int) -> (int, int)
    decreases leaves.len(),
{
    if leaves.len() == 0 || i < bytes(leaves[0]).len() {
        (0, i)
    } else {
        let (k, o) = locate(leaves.drop_first(), i - bytes(leaves[0]).len());
        (k + 1, o)
    }
}

/// `b` cut into pieces of `n` bytes, the last one possibly shorter; no piece is empty.
pub open spec fn chunks(b: Seq<u8>, n: nat) -> Seq<Seq<u8>>
    decreases b.len(),
{
    if b.len() == 0 {
        Seq::empty()
    } else if b.len() <= n || n == 0 {
        seq![b]
    } else {
        seq![b.subrange(0, n as int)] + chunks(b.subrange(n as int, b.len() as int), n)
    }
}

/// Every cut that `chunks(b, n)` makes falls on a character boundary.
pub open spec fn cuts_on_chars(b: Seq<u8>, n: nat) -> bool
    decreases b.len(),
{
    if b.len() <= n || n == 0 {
        true
    } else {
        is_char_boundary(b, n as int) && cuts_on_chars(b.subrange(n as int, b.len() as int), n)
    }
}

/// Joining is compatible with concatenating leaf sequences.
pub proof fn lemma_joined_concat(a: Seq<String>, b: Seq<String>)
    ensures
        joined(a + b) == joined(a) + joined(b),
    decreases a.len(),
{
    if a.len() == 0 {
        assert(a + b =~= b);
        assert(joined(a) + joined(b) =~= joined(b));
    } else {
        assert((a + b).drop_first() =~= a.drop_first() + b);
        lemma_joined_concat(a.drop_first(), b);
        assert(joined(a + b) =~= joined(a) + joined(b));
    }
}

pub proof fn lemma_joined_single(s: String)
    ensures
        joined(seq![s]) == bytes(s),
{
    assert(seq![s].drop_first() =~= Seq::<String>::empty());
    assert(seq![s][0] == s);
    assert(joined(seq![s].drop_first()) =~= Seq::<u8>::empty());
    assert(joined(seq![s]) =~= bytes(s));
}

pub proof fn lemma_joined_push(a: Seq<String>, s: String)
    ensures
        joined(a.push(s)) == joined(a) + bytes(s),
{
    lemma_joined_concat(a, seq![s]);
    lemma_joined_single(s);
    assert(a.push(s) =~= a + seq![s]);
}

/// Locating in `a + b` locates in `a` for the positions that `a` covers, and in
/// `b`, shifted, for the others.
pub proof fn lemma_locate_concat(a: Seq<String>, b: Seq<String>, i: int)
    requires
        0 <= i,
        i < joined(a).len() || b.len() > 0,
    ensures
        locate(a + b, i) == (if i < joined(a).len() {
            locate(a, i)
        } else {
            (a.len() + locate(b, i - joined(a).len()).0, locate(b, i - joined(a).len()).1)
        }),
    decreases a.len(),
{
    if a.len() == 0 {
        assert(a + b =~= b);
    } else {
        assert((a + b).drop_first() =~= a.drop_first() + b);
        assert((a + b)[0] == a[0]);
        if i >= bytes(a[0]).len() {
            lemma_locate_concat(a.drop_first(), b, i - bytes(a[0]).len());
        }
    }
}

/// A position inside the joined text is found in a leaf that has a byte at the
/// offset given, and that byte is the one at the position.
pub proof fn lemma_locate_in_range(leaves: Seq<String>, i: int)
    requires
        0 <= i < joined(leaves).len(),
    ensures
        0 <= locate(leaves, i).0 < leaves.len(),
        0 <= locate(leaves, i).1 < bytes(leaves[locate(leaves, i).0]).len(),
        bytes(leaves[locate(leaves, i).0])[locate(leaves, i).1] == joined(leaves)[i],
    decreases leaves.len(),
{
    if i >= bytes(leaves[0]).len() {
        lemma_locate_in_range(leaves.drop_first(), i - bytes(leaves[0]).len());
    }
}

} // verus!
