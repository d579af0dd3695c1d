//! Byte strings: copying, comparing and the big-endian integers from which
//! the canonical encodings are built.

use vstd::prelude::*;

verus! {

/// The eight bytes of `x`, most significant first.
#[verifier::opaque]
pub open spec fn spec_u64_be(x: u64) -> Seq<u8> {
    seq![
        (x / 0x100_0000_0000_0000) as u8,
        (x / 0x1_0000_0000_0000 % 256) as u8,
        (x / 0x100_0000_0000 % 256) as u8,
        (x / 0x1_0000_0000 % 256) as u8,
        (x / 0x100_0000 % 256) as u8,
        (x / 0x1_0000 % 256) as u8,
        (x / 0x100 % 256) as u8,
        (x % 256) as u8,
    ]
}

/// The number that eight bytes spell, most significant first.
#[verifier::opaque]
pub open spec fn spec_u64_from_be(b: Seq<u8>) -> u64
    recommends
        b.len() == 8,
{
    (b[0] as int * 0x100_0000_0000_0000 + b[1] as int * 0x1_0000_0000_0000 + b[2] as int
        * 0x100_0000_0000 + b[3] as int * 0x1_0000_0000 + b[4] as int * 0x100_0000 + b[5] as int
        * 0x1_0000 + b[6] as int * 0x100 + b[7] as int) as u64
}

/// A byte string behind its length, the length written as eight bytes.
pub open spec fn spec_prefixed(data: Seq<u8>) -> Seq<u8> {
    spec_u64_be(data.len() as u64) + data
}

/// The byte strings held by a sequence of vectors.
pub open spec fn byte_views(v: Seq<Vec<u8>>) -> Seq<Seq<u8>> {
    Seq::new(v.len(), |i: int| v[i]@)
}

/// The items of a list one after the other, each behind its length.
pub open spec fn spec_concat_prefixed(items: Seq<Seq<u8>>) -> Seq<u8>
    decreases items.len(),
{
    if items.len() == 0 {
        Seq::empty()
    } else {
        spec_concat_prefixed(items.drop_last()) + spec_prefixed(items.last())
    }
}

/// A list of byte strings: the number of items, then the items, each behind
/// its length.
pub open spec fn spec_list(items: Seq<Seq<u8>>) -> Seq<u8> {
    spec_u64_be(items.len() as u64) + spec_concat_prefixed(items)
}

/// Reading back the bytes of a number gives the number.
pub proof fn lemma_u64_be_round_trip(x: u64)
    ensures
        spec_u64_be(x).len() == 8,
        spec_u64_from_be(spec_u64_be(x)) == x,
{
    reveal(spec_u64_be);
    reveal(spec_u64_from_be);
    assert(x == (x / 0x100_0000_0000_0000) * 0x100_0000_0000_0000 + (x / 0x1_0000_0000_0000 % 256)
        * 0x1_0000_0000_0000 + (x / 0x100_0000_0000 % 256) * 0x100_0000_0000 + (x / 0x1_0000_0000
        % 256) * 0x1_0000_0000 + (x / 0x100_0000 % 256) * 0x100_0000 + (x / 0x1_0000 % 256)
        * 0x1_0000 + (x / 0x100 % 256) * 0x100 + x % 256) by (bit_vector);
    assert(x / 0x100_0000_0000_0000 < 256) by (bit_vector);
}

/// Different numbers are spelled by different bytes.
pub proof fn lemma_u64_be_injective(x: u64, y: u64)
    requires
        spec_u64_be(x) == spec_u64_be(y),
    ensures
        x == y,
{
    lemma_u64_be_round_trip(x);
    lemma_u64_be_round_trip(y);
}

/// Two strings that begin with the bytes of a number begin with the same
/// number and go on in the same way.
pub proof fn lemma_u64_be_split(x: u64, r1: Seq<u8>, y: u64, r2: Seq<u8>)
    requires
        spec_u64_be(x) + r1 == spec_u64_be(y) + r2,
    ensures
        x == y,
        r1 == r2,
{
    lemma_u64_be_round_trip(x);
    lemma_u64_be_round_trip(y);
    let a = spec_u64_be(x) + r1;
    let b = spec_u64_be(y) + r2;
    assert(a.subrange(0, 8) =~= spec_u64_be(x));
    assert(b.subrange(0, 8) =~= spec_u64_be(y));
    assert(a.subrange(8, a.len() as int) =~= r1);
    assert(b.subrange(8, b.len() as int) =~= r2);
}

/// Two strings that begin with a byte string behind its length begin with
/// the same byte string and go on in the same way.
pub proof fn lemma_prefixed_split(x: Seq<u8>, r1: Seq<u8>, y: Seq<u8>, r2: Seq<u8>)
    requires
        x.len() <= u64::MAX,
        y.len() <= u64::MAX,
        spec_prefixed(x) + r1 == spec_prefixed(y) + r2,
    ensures
        x == y,
        r1 == r2,
{
    let a = spec_prefixed(x) + r1;
    let b = spec_prefixed(y) + r2;
    assert(a =~= spec_u64_be(x.len() as u64) + (x + r1));
    assert(b =~= spec_u64_be(y.len() as u64) + (y + r2));
    lemma_u64_be_split(x.len() as u64, x + r1, y.len() as u64, y + r2);
    assert((x + r1).subrange(0, x.len() as int) =~= x);
    assert((y + r2).subrange(0, y.len() as int) =~= y);
    assert((x + r1).subrange(x.len() as int, (x + r1).len() as int) =~= r1);
    assert((y + r2).subrange(y.len() as int, (y + r2).len() as int) =~= r2);
}

/// The eight bytes of `x`, most significant first.
pub fn u64_be(x: u64) -> (out: Vec<u8>)
    ensures
        out@ == spec_u64_be(x),
        out@.len() == 8,
{
    let mut out: Vec<u8> = Vec::new();
    out.push((x / 0x100_0000_0000_0000) as u8);
    out.push((x / 0x1_0000_0000_0000 % 256) as u8);
    out.push((x / 0x100_0000_0000 % 256) as u8);
    out.push((x / 0x1_0000_0000 % 256) as u8);
    out.push((x / 0x100_0000 % 256) as u8);
    out.push((x / 0x1_0000 % 256) as u8);
    out.push((x / 0x100 % 256) as u8);
    out.push((x % 256) as u8);
    reveal(spec_u64_be);
    assert(out@ =~= spec_u64_be(x));
    out
}

/// Reads a number from the first eight bytes of `b`.
pub fn u64_from_be(b: &[u8]) -> (x: u64)
    requires
        b@.len() >= 8,
    ensures
        x == spec_u64_from_be(b@.subrange(0, 8)),
{
    reveal(spec_u64_from_be);
    let mut x: u64 = b[0] as u64;
    x = x * 256 + b[1] as u64;
    x = x * 256 + b[2] as u64;
    x = x * 256 + b[3] as u64;
    x = x * 256 + b[4] as u64;
    x = x * 256 + b[5] as u64;
    x = x * 256 + b[6] as u64;
    x = x * 256 + b[7] as u64;
    x
}

/// Appends `src` to `dst`.
pub fn append(dst: &mut Vec<u8>, src: &[u8])
    ensures
        final(dst)@ == old(dst)@ + src@,
{
    let mut i: usize = 0;
    while i < src.len()
        invariant
            i <= src@.len(),
            dst@ == old(dst)@ + src@.subrange(0, i as int),
        decreases src@.len() - i,
    {
        dst.push(src[i]);
        assert(dst@ =~= old(dst)@ + src@.subrange(0, i + 1));
        i += 1;
    }
    assert(src@.subrange(0, i as int) =~= src@);
}

/// Appends `src` behind its eight-byte length.
pub fn append_prefixed(dst: &mut Vec<u8>, src: &[u8])
    ensures
        final(dst)@ == old(dst)@ + spec_prefixed(src@),
{
    let len = u64_be(src.len() as u64);
    append(dst, len.as_slice());
    append(dst, src);
    assert(dst@ =~= old(dst)@ + spec_prefixed(src@));
}

/// The encoding of a list of byte strings.
pub fn encode_list(items: &Vec<Vec<u8>>) -> (out: Vec<u8>)
    ensures
        out@ == spec_list(byte_views(items@)),
{
    let mut out = u64_be(items.len() as u64);
    let ghost head = out@;
    let ghost views = byte_views(items@);
    let mut i: usize = 0;
    assert(views.subrange(0, 0) =~= Seq::<Seq<u8>>::empty());
    while i < items.len()
        invariant
            i <= items@.len(),
            views == byte_views(items@),
            out@ == head + spec_concat_prefixed(views.subrange(0, i as int)),
        decreases items@.len() - i,
    {
        append_prefixed(&mut out, items[i].as_slice());
        assert(views.subrange(0, i + 1).drop_last() =~= views.subrange(0, i as int));
        assert(views.subrange(0, i + 1).last() == items@[i as int]@);
        assert(out@ =~= head + spec_concat_prefixed(views.subrange(0, i + 1)));
        i += 1;
    }
    assert(views.subrange(0, i as int) =~= views);
    out
}

/// A fresh copy of `src`.
pub fn copy(src: &[u8]) -> (out: Vec<u8>)
    ensures
        out@ == src@,
{
    let mut out: Vec<u8> = Vec::new();
    append(&mut out, src);
    assert(out@ =~= src@);
    out
}

/// A fresh copy of the bytes of `src` from place `from` up to but not
/// including place `to`.
pub fn copy_range(src: &[u8], from: usize, to: usize) -> (out: Vec<u8>)
    requires
        from <= to <= src@.len(),
    ensures
        out@ == src@.subrange(from as int, to as int),
{
    let mut out: Vec<u8> = Vec::new();
    let mut i: usize = from;
    while i < to
        invariant
            from <= i <= to <= src@.len(),
            out@ == src@.subrange(from as int, i as int),
        decreases to - i,
    {
        out.push(src[i]);
        assert(out@ =~= src@.subrange(from as int, i + 1));
        i += 1;
    }
    out
}

/// Whether two byte strings hold the same bytes.
pub fn equal(a: &[u8], b: &[u8]) -> (same: bool)
    ensures
        same <==> a@ == b@,
{
    if a.len() != b.len() {
        return false;
    }
    let mut i: usize = 0;
    while i < a.len()
        invariant
            i <= a@.len(),
            a@.len() == b@.len(),
            a@.subrange(0, i as int) == b@.subrange(0, i as int),
        decreases a@.len() - i,
    {
        if a[i] != b[i] {
            return false;
        }
        assert(a@.subrange(0, i + 1) =~= a@.subrange(0, i as int).push(a@[i as int]));
        assert(b@.subrange(0, i + 1) =~= b@.subrange(0, i as int).push(b@[i as int]));
        i += 1;
    }
    assert(a@ =~= a@.subrange(0, i as int));
    assert(b@ =~= b@.subrange(0, i as int));
    true
}

/// `len` zero bytes.
pub fn zeros(len: usize) -> (out: Vec<u8>)
    ensures
        out@ == Seq::new(len as nat, |i: int| 0u8),
{
    let mut out: Vec<u8> = Vec::new();
    while out.len() < len
        invariant
            out@.len() <= len,
            out@ == Seq::new(out@.len(), |i: int| 0u8),
        decreases len - out@.len(),
    {
        out.push(0u8);
        assert(out@ =~= Seq::new(out@.len(), |i: int| 0u8));
    }
    out
}

} // verus!
