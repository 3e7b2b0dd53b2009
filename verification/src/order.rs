//! The order in which names stand in a directory.
//!
//! Explicit names come first, by the bytes of their UTF-8 encoding; generated
//! names follow, by ordinal.

use vstd::prelude::*;
use vstd::utf8::*;

verus! {

/// Lexicographic order on byte strings.
pub open spec fn bytes_lt(a: Seq<u8>, b: Seq<u8>) -> bool
    decreases a.len(),
{
    if b.len() == 0 {
        false
    } else if a.len() == 0 {
        true
    } else if a[0] != b[0] {
        a[0] < b[0]
    } else {
        bytes_lt(a.skip(1), b.skip(1))
    }
}

/// The order of explicit names: that of their UTF-8 encodings.
pub open spec fn text_lt(a: Seq<char>, b: Seq<char>) -> bool {
    bytes_lt(encode_utf8(a), encode_utf8(b))
}

/// The identity of an entry within its directory.
pub enum NameView {
    /// A name that the caller supplied.
    Explicit(Seq<char>),
    /// No name was supplied; the ordinal tells such entries of one directory apart.
    Generated(nat),
}

impl NameView {
    /// The name with the number `ordinal` in place of the one it has; an
    /// explicit name stays as it is.
    pub open spec fn renumbered(self, ordinal: nat) -> NameView {
        match self {
            NameView::Explicit(_) => self,
            NameView::Generated(_) => NameView::Generated(ordinal),
        }
    }

    /// Whether `self` stands before `other` in a directory.
    pub open spec fn before(self, other: NameView) -> bool {
        match (self, other) {
            (NameView::Explicit(a), NameView::Explicit(b)) => text_lt(a, b),
            (NameView::Explicit(_), NameView::Generated(_)) => true,
            (NameView::Generated(_), NameView::Explicit(_)) => false,
            (NameView::Generated(m), NameView::Generated(n)) => m < n,
        }
    }
}

/// No byte string stands before itself.
pub proof fn lemma_bytes_lt_irreflexive(a: Seq<u8>)
    ensures
        !bytes_lt(a, a),
    decreases a.len(),
{
    if a.len() > 0 {
        lemma_bytes_lt_irreflexive(a.skip(1));
    }
}

/// What stands before a byte string stands before all that the byte string
/// stands before.
pub proof fn lemma_bytes_lt_transitive(a: Seq<u8>, b: Seq<u8>, c: Seq<u8>)
    requires
        bytes_lt(a, b),
        bytes_lt(b, c),
    ensures
        bytes_lt(a, c),
    decreases a.len(),
{
    if a.len() > 0 && a[0] == b[0] && b[0] == c[0] {
        lemma_bytes_lt_transitive(a.skip(1), b.skip(1), c.skip(1));
    }
}

/// Of two different byte strings one stands before the other.
pub proof fn lemma_bytes_lt_total(a: Seq<u8>, b: Seq<u8>)
    ensures
        bytes_lt(a, b) || bytes_lt(b, a) || a == b,
    decreases a.len(),
{
    if a.len() > 0 && b.len() > 0 && a[0] == b[0] {
        lemma_bytes_lt_total(a.skip(1), b.skip(1));
        if a.skip(1) == b.skip(1) {
            assert(a =~= seq![a[0]] + a.skip(1));
            assert(b =~= seq![b[0]] + b.skip(1));
        }
    } else if a.len() == 0 && b.len() == 0 {
        assert(a =~= b);
    }
}

/// No name stands before itself.
pub proof fn lemma_before_irreflexive(a: NameView)
    ensures
        !a.before(a),
{
    if let NameView::Explicit(text) = a {
        lemma_bytes_lt_irreflexive(encode_utf8(text));
    }
}

/// What stands before a name stands before all that the name stands before.
pub proof fn lemma_before_transitive(a: NameView, b: NameView, c: NameView)
    requires
        a.before(b),
        b.before(c),
    ensures
        a.before(c),
{
    if let (NameView::Explicit(x), NameView::Explicit(y), NameView::Explicit(z)) = (a, b, c) {
        lemma_bytes_lt_transitive(encode_utf8(x), encode_utf8(y), encode_utf8(z));
    }
}

/// Of two different names one stands before the other.
pub proof fn lemma_before_total(a: NameView, b: NameView)
    ensures
        a.before(b) || b.before(a) || a == b,
{
    if let (NameView::Explicit(x), NameView::Explicit(y)) = (a, b) {
        lemma_bytes_lt_total(encode_utf8(x), encode_utf8(y));
        if encode_utf8(x) == encode_utf8(y) {
            encode_utf8_decode_utf8(x);
            encode_utf8_decode_utf8(y);
        }
    }
}

/// Whether the first `len` bytes of `a` and of `b` are the same.
pub open spec fn same_prefix(a: Seq<u8>, b: Seq<u8>, len: int) -> bool {
    &&& 0 <= len <= a.len()
    &&& len <= b.len()
    &&& forall|k: int| 0 <= k < len ==> a[k] == b[k]
}

proof fn lemma_bytes_lt_after_prefix(a: Seq<u8>, b: Seq<u8>, len: int)
    requires
        same_prefix(a, b, len),
    ensures
        bytes_lt(a, b) == bytes_lt(a.skip(len), b.skip(len)),
    decreases len,
{
    if len > 0 {
        assert(same_prefix(a.skip(1), b.skip(1), len - 1)) by {
            assert forall|k: int| 0 <= k < len - 1 implies a.skip(1)[k] == b.skip(1)[k] by {
                assert(a[k + 1] == b[k + 1]);
            }
        }
        lemma_bytes_lt_after_prefix(a.skip(1), b.skip(1), len - 1);
        assert(a.skip(1).skip(len - 1) =~= a.skip(len));
        assert(b.skip(1).skip(len - 1) =~= b.skip(len));
        assert(a[0] == b[0]);
    } else {
        assert(a.skip(0) =~= a);
        assert(b.skip(0) =~= b);
    }
}

/// Compares two byte strings lexicographically.
pub fn bytes_before(a: &[u8], b: &[u8]) -> (before: bool)
    ensures
        before == bytes_lt(a@, b@),
{
    let mut i: usize = 0;
    while i < a.len() && i < b.len()
        invariant
            same_prefix(a@, b@, i as int),
        decreases a.len() - i,
    {
        if a[i] != b[i] {
            proof {
                lemma_bytes_lt_after_prefix(a@, b@, i as int);
            }
            return a[i] < b[i];
        }
        i += 1;
    }
    proof {
        lemma_bytes_lt_after_prefix(a@, b@, i as int);
    }
    i < b.len()
}

/// Compares two texts by their UTF-8 encodings.
pub fn text_before(a: &str, b: &str) -> (before: bool)
    ensures
        before == text_lt(a@, b@),
{
    bytes_before(a.as_bytes(), b.as_bytes())
}

} // verus!
