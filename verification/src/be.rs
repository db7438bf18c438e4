//! Big-endian integers as byte sequences.

use vstd::prelude::*;

verus! {

/// The `width` low bytes of `v`, most significant byte first.
pub open spec fn be(v: nat, width: nat) -> Seq<u8>
    decreases width,
{
    if width == 0 {
        Seq::empty()
    } else {
        be(v / 256, (width - 1) as nat).push((v % 256) as u8)
    }
}

/// The number that `s` spells, most significant byte first.
pub open spec fn from_be(s: Seq<u8>) -> nat
    decreases s.len(),
{
    if s.len() == 0 {
        0
    } else {
        from_be(s.drop_last()) * 256 + s.last() as nat
    }
}

/// How many numbers fit in `width` bytes.
pub open spec fn span(width: nat) -> nat
    decreases width,
{
    if width == 0 {
        1
    } else {
        256 * span((width - 1) as nat)
    }
}

pub proof fn lemma_be_len(v: nat, width: nat)
    ensures
        be(v, width).len() == width,
    decreases width,
{
    if width > 0 {
        lemma_be_len(v / 256, (width - 1) as nat);
    }
}

/// Reading back what was spelled gives the number, when it fits the width.
pub proof fn lemma_be_round_trip(v: nat, width: nat)
    requires
        v < span(width),
    ensures
        from_be(be(v, width)) == v,
        be(v, width).len() == width,
    decreases width,
{
    if width > 0 {
        lemma_be_len(v / 256, (width - 1) as nat);
        lemma_be_round_trip(v / 256, (width - 1) as nat);
        assert(be(v, width).drop_last() =~= be(v / 256, (width - 1) as nat));
    }
}

/// A byte sequence spells a number that fits its own length.
pub proof fn lemma_from_be_bound(s: Seq<u8>)
    ensures
        from_be(s) < span(s.len()),
    decreases s.len(),
{
    if s.len() > 0 {
        lemma_from_be_bound(s.drop_last());
    }
}

pub proof fn lemma_spans()
    ensures
        span(4) == 0x1_0000_0000,
        span(8) == 0x1_0000_0000_0000_0000,
{
    reveal_with_fuel(span, 9);
}

/// Appends `v` to `out` as four bytes, most significant first.
pub fn put_u32(out: &mut Vec<u8>, v: u32)
    ensures
        final(out)@ == old(out)@ + be(v as nat, 4),
{
    let v1: u32 = v / 256;
    let v2: u32 = v1 / 256;
    let v3: u32 = v2 / 256;
    out.push((v3 % 256) as u8);
    out.push((v2 % 256) as u8);
    out.push((v1 % 256) as u8);
    out.push((v % 256) as u8);
    proof {
        reveal_with_fuel(be, 5);
        assert(out@ =~= old(out)@ + be(v as nat, 4));
    }
}

/// Appends `v` to `out` as eight bytes, most significant first.
pub fn put_u64(out: &mut Vec<u8>, v: u64)
    ensures
        final(out)@ == old(out)@ + be(v as nat, 8),
{
    let v1: u64 = v / 256;
    let v2: u64 = v1 / 256;
    let v3: u64 = v2 / 256;
    let v4: u64 = v3 / 256;
    let v5: u64 = v4 / 256;
    let v6: u64 = v5 / 256;
    let v7: u64 = v6 / 256;
    out.push((v7 % 256) as u8);
    out.push((v6 % 256) as u8);
    out.push((v5 % 256) as u8);
    out.push((v4 % 256) as u8);
    out.push((v3 % 256) as u8);
    out.push((v2 % 256) as u8);
    out.push((v1 % 256) as u8);
    out.push((v % 256) as u8);
    proof {
        reveal_with_fuel(be, 9);
        assert(out@ =~= old(out)@ + be(v as nat, 8));
    }
}

/// The number that the bytes `b[at..at + 4]` spell.
pub fn get_u32(b: &[u8], at: usize) -> (v: u32)
    requires
        at + 4 <= b@.len(),
    ensures
        v as nat == from_be(b@.subrange(at as int, at + 4)),
{
    let ghost s = b@.subrange(at as int, at + 4);
    proof {
        reveal_with_fuel(from_be, 5);
        assert(s.drop_last().drop_last().drop_last() =~= seq![s[0]]);
        assert(s.drop_last().drop_last() =~= seq![s[0], s[1]]);
        assert(s.drop_last() =~= seq![s[0], s[1], s[2]]);
        assert(seq![s[0]].drop_last() =~= Seq::<u8>::empty());
    }
    ((b[at] as u32 * 256 + b[at + 1] as u32) * 256 + b[at + 2] as u32) * 256 + b[at + 3] as u32
}

/// The number that the bytes `b[at..at + 8]` spell.
pub fn get_u64(b: &[u8], at: usize) -> (v: u64)
    requires
        at + 8 <= b@.len(),
    ensures
        v as nat == from_be(b@.subrange(at as int, at + 8)),
{
    assert(at + 8 <= b.len());
    let high: u32 = get_u32(b, at);
    let low: u32 = get_u32(b, at + 4);
    proof {
        lemma_from_be_halves(b@.subrange(at as int, at + 8));
        assert(b@.subrange(at as int, at + 8).subrange(0, 4) =~= b@.subrange(at as int, at + 4));
        assert(b@.subrange(at as int, at + 8).subrange(4, 8) =~= b@.subrange(at + 4, at + 8));
    }
    high as u64 * 0x1_0000_0000 + low as u64
}

/// An eight byte number is its high half times 2^32 plus its low half.
proof fn lemma_from_be_halves(s: Seq<u8>)
    requires
        s.len() == 8,
    ensures
        from_be(s) == from_be(s.subrange(0, 4)) * 0x1_0000_0000 + from_be(s.subrange(4, 8)),
{
    lemma_from_be_append(s.subrange(0, 4), s.subrange(4, 8));
    lemma_spans();
    assert(s =~= s.subrange(0, 4) + s.subrange(4, 8));
}

proof fn lemma_from_be_append(a: Seq<u8>, b: Seq<u8>)
    ensures
        from_be(a + b) == from_be(a) * span(b.len()) + from_be(b),
    decreases b.len(),
{
    if b.len() == 0 {
        assert(a + b =~= a);
        assert(span(0) == 1);
        let x = from_be(a) as int;
        assert(x * 1 == x) by (nonlinear_arith);
    } else {
        lemma_from_be_append(a, b.drop_last());
        assert((a + b).drop_last() =~= a + b.drop_last());
        let x = from_be(a) as int;
        let y = span((b.len() - 1) as nat) as int;
        let z = from_be(b.drop_last()) as int;
        assert((x * y + z) * 256 == x * (256 * y) + z * 256) by (nonlinear_arith);
        assert((a + b).last() == b.last());
        assert(span(b.len()) == 256 * y);
    }
}

} // verus!
