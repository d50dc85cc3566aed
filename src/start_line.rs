//! Pieces of the first line of a message: splitting it at spaces and the
//! protocol version tokens.
use vstd::prelude::*;

use crate::header::ascii;

verus! {

/// The first `b` in `d` is at `p`.
pub open spec fn first_byte_at(d: Seq<u8>, b: u8, p: int) -> bool {
    0 <= p < d.len() && d[p] == b && forall|j: int| 0 <= j < p ==> d[j] != b
}

/// Where the first space of `d` is, if it has one.
pub open spec fn first_space(d: Seq<u8>) -> Option<int> {
    if exists|p: int| first_byte_at(d, 32u8, p) {
        Some(choose|p: int| first_byte_at(d, 32u8, p))
    } else {
        None
    }
}

/// `d` cut at every single space; empty pieces are kept.
pub open spec fn split_spaces(d: Seq<u8>) -> Seq<Seq<u8>>
    decreases d.len(),
{
    match first_space(d) {
        None => seq![d],
        Some(p) => if 0 <= p < d.len() {
            seq![d.subrange(0, p)] + split_spaces(d.subrange(p + 1, d.len() as int))
        } else {
            seq![d]
        },
    }
}

/// `d` holds no space.
pub open spec fn no_space(d: Seq<u8>) -> bool {
    !d.contains(32u8)
}

/// A piece without spaces followed by a space comes off whole.
pub proof fn lemma_split_first(a: Seq<u8>, b: Seq<u8>)
    requires
        no_space(a),
    ensures
        split_spaces(a + seq![32u8] + b) == seq![a] + split_spaces(b),
{
    let d = a + seq![32u8] + b;
    let p = a.len() as int;
    assert forall|j: int| 0 <= j < p implies d[j] != 32u8 by {
        assert(d[j] == a[j]);
    }
    assert(first_byte_at(d, 32u8, p));
    let k = choose|k: int| first_byte_at(d, 32u8, k);
    if k < p {
        assert(d[k] == a[k]);
    } else if k > p {
        assert(d[p] != 32u8);
    }
    assert(d.subrange(0, p) =~= a);
    assert(d.subrange(p + 1, d.len() as int) =~= b);
}

/// A piece without spaces is a single token.
pub proof fn lemma_split_none(a: Seq<u8>)
    requires
        no_space(a),
    ensures
        split_spaces(a) == seq![a],
{
    assert forall|p: int| !first_byte_at(a, 32u8, p) by {
        if first_byte_at(a, 32u8, p) {
            assert(a.contains(32u8));
        }
    }
}

/// Finds the first space in `d`.
pub(crate) fn find_space(d: &[u8]) -> (r: Option<usize>)
    ensures
        match r {
            Some(p) => first_space(d@) == Some(p as int),
            None => first_space(d@) is None,
        },
{
    let mut i: usize = 0;
    while i < d.len()
        invariant
            i <= d@.len(),
            forall|j: int| 0 <= j < i ==> d@[j] != 32u8,
        decreases d@.len() - i,
    {
        if d[i] == 32u8 {
            assert(first_byte_at(d@, 32u8, i as int));
            let ghost k = choose|k: int| first_byte_at(d@, 32u8, k);
            assert(k == i) by {
                if k < i {
                    assert(d@[k] != 32u8);
                } else if k > i {
                    assert(d@[i as int] != 32u8);
                }
            }
            return Some(i);
        }
        i = i + 1;
    }
    None
}

/// The first piece of `d` up to a space, and what follows that space.
pub(crate) fn next_token<'a>(d: &'a [u8]) -> (r: (&'a [u8], Option<&'a [u8]>))
    ensures
        r.0@ == split_spaces(d@)[0],
        match r.1 {
            Some(rest) => split_spaces(d@) == seq![r.0@] + split_spaces(rest@),
            None => split_spaces(d@) == seq![d@],
        },
{
    match find_space(d) {
        None => (d, None),
        Some(p) => {
            let (t, rest) = d.split_at(p);
            let rest = vstd::slice::slice_subrange(rest, 1, rest.len());
            assert(rest@ =~= d@.subrange(p + 1, d@.len() as int));
            (t, Some(rest))
        },
    }
}

/// `HTTP/1.1`.
pub open spec fn http_1_1() -> Seq<u8> {
    seq!['H' as u8, 'T' as u8, 'T' as u8, 'P' as u8, '/' as u8, '1' as u8, '.' as u8, '1' as u8]
}

/// `HTTP/1.0`.
pub open spec fn http_1_0() -> Seq<u8> {
    seq!['H' as u8, 'T' as u8, 'T' as u8, 'P' as u8, '/' as u8, '1' as u8, '.' as u8, '0' as u8]
}

/// A protocol version this codec reads.
pub open spec fn is_version(t: Seq<u8>) -> bool {
    t == http_1_1() || t == http_1_0()
}

/// The version tokens hold no space and no CR LF.
pub proof fn lemma_version_plain(v: Seq<u8>)
    requires
        is_version(v),
    ensures
        no_space(v),
        crate::header::no_crlf(v),
{
    assert forall|i: int| 0 <= i < v.len() implies v[i] != 32u8 && v[i] != 13u8 by {}
    crate::header::lemma_no_cr_no_crlf(v);
}

/// The version token that builders write.
pub(crate) fn version_bytes() -> (r: &'static [u8])
    ensures
        r@ == http_1_1(),
{
    proof {
        reveal_strlit("HTTP/1.1");
    }
    let r = ascii("HTTP/1.1");
    assert(r@ =~= http_1_1());
    r
}

/// Whether `a` and `b` hold the same bytes.
pub(crate) fn same_bytes(a: &[u8], b: &[u8]) -> (r: bool)
    ensures
        r == (a@ == b@),
{
    if a.len() != b.len() {
        return false;
    }
    let mut i: usize = 0;
    while i < a.len()
        invariant
            a@.len() == b@.len(),
            i <= a@.len(),
            forall|j: int| 0 <= j < i ==> a@[j] == b@[j],
        decreases a@.len() - i,
    {
        if a[i] != b[i] {
            return false;
        }
        i = i + 1;
    }
    assert(a@ =~= b@);
    true
}

/// Whether `t` is a protocol version this codec reads.
pub(crate) fn check_version(t: &[u8]) -> (r: bool)
    ensures
        r == is_version(t@),
{
    let v = version_bytes();
    if same_bytes(t, v) {
        return true;
    }
    proof {
        reveal_strlit("HTTP/1.0");
    }
    let w = ascii("HTTP/1.0");
    assert(w@ =~= http_1_0());
    same_bytes(t, w)
}

} // verus!
