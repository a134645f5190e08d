//! Fixed-width little-endian primitives: the atomic unit of the wire format.
use vstd::prelude::*;

verus! {

/// `256^n`.
pub open spec fn pow256(n: nat) -> nat
    decreases n,
{
    if n == 0 {
        1
    } else {
        256 * pow256((n - 1) as nat)
    }
}

/// The unsigned number whose little-endian bytes are `s`.
pub open spec fn le_nat(s: Seq<u8>) -> nat
    decreases s.len(),
{
    if s.len() == 0 {
        0
    } else {
        s[0] as nat + 256 * le_nat(s.subrange(1, s.len() as int))
    }
}

/// The `w` little-endian bytes of `v` (the bits above `8 * w` are dropped).
pub open spec fn le_bytes(v: nat, w: nat) -> Seq<u8>
    decreases w,
{
    if w == 0 {
        Seq::empty()
    } else {
        seq![(v % 256) as u8] + le_bytes(v / 256, (w - 1) as nat)
    }
}

pub proof fn lemma_pow256_pos(n: nat)
    ensures
        pow256(n) >= 1,
    decreases n,
{
    if n > 0 {
        lemma_pow256_pos((n - 1) as nat);
    }
}

pub proof fn lemma_pow256_mono(a: nat, b: nat)
    requires
        a <= b,
    ensures
        pow256(a) <= pow256(b),
    decreases b,
{
    if a < b {
        lemma_pow256_mono(a, (b - 1) as nat);
        lemma_pow256_pos((b - 1) as nat);
    }
}

pub proof fn lemma_pow256_8()
    ensures
        pow256(8) == 0x1_0000_0000_0000_0000,
{
    reveal_with_fuel(pow256, 9);
}

pub proof fn lemma_le_bytes_len(v: nat, w: nat)
    ensures
        le_bytes(v, w).len() == w,
    decreases w,
{
    if w > 0 {
        lemma_le_bytes_len(v / 256, (w - 1) as nat);
    }
}

pub proof fn lemma_le_nat_bound(s: Seq<u8>)
    ensures
        le_nat(s) < pow256(s.len()),
    decreases s.len(),
{
    if s.len() > 0 {
        let t = s.subrange(1, s.len() as int);
        lemma_le_nat_bound(t);
        assert(le_nat(s) == s[0] as nat + 256 * le_nat(t));
        assert(pow256(s.len()) == 256 * pow256(t.len()));
        assert(s[0] as nat + 256 * le_nat(t) < 256 * pow256(t.len())) by (nonlinear_arith)
            requires
                s[0] < 256,
                le_nat(t) < pow256(t.len()),
        ;
    }
}

/// Decoding the little-endian bytes of `v` gives `v` back.
pub proof fn lemma_le_round_trip(v: nat, w: nat)
    requires
        v < pow256(w),
    ensures
        le_nat(le_bytes(v, w)) == v,
    decreases w,
{
    if w > 0 {
        let rest = le_bytes(v / 256, (w - 1) as nat);
        let s = le_bytes(v, w);
        assert(pow256(w) == 256 * pow256((w - 1) as nat));
        assert(v / 256 < pow256((w - 1) as nat));
        lemma_le_round_trip(v / 256, (w - 1) as nat);
        assert(s.subrange(1, s.len() as int) =~= rest);
    } else {
        assert(v == 0);
    }
}

proof fn lemma_le_nat_step(s: Seq<u8>, a: int, b: int)
    requires
        0 <= a < b <= s.len(),
    ensures
        le_nat(s.subrange(a, b)) == s[a] as nat + 256 * le_nat(s.subrange(a + 1, b)),
{
    let t = s.subrange(a, b);
    assert(t.subrange(1, t.len() as int) =~= s.subrange(a + 1, b));
}

/// Reads the unsigned little-endian number of `w` bytes at `pos`, or `None` when
/// fewer than `w` bytes remain.
pub fn read_le(buf: &[u8], pos: usize, w: usize) -> (r: Option<u64>)
    requires
        1 <= w <= 8,
    ensures
        pos + w <= buf@.len() ==> r == Some(le_nat(buf@.subrange(pos as int, pos + w)) as u64),
        pos + w > buf@.len() ==> r.is_none(),
        r.is_some() ==> r->0 < pow256(w as nat),
{
    if pos > buf.len() || buf.len() - pos < w {
        return None;
    }
    let end: usize = pos + w;
    let mut i: usize = w;
    let mut v: u64 = 0;
    proof {
        lemma_pow256_8();
        lemma_pow256_mono(w as nat, 8);
    }
    while i > 0
        invariant
            0 <= i <= w <= 8,
            end == pos + w <= buf@.len(),
            v as nat == le_nat(buf@.subrange(pos + i, end as int)),
            v < pow256((w - i) as nat),
            pow256(w as nat) <= 0x1_0000_0000_0000_0000,
        decreases i,
    {
        let b = buf[pos + i - 1];
        proof {
            lemma_le_nat_step(buf@, pos + i - 1, end as int);
            assert(pow256((w - i + 1) as nat) == 256 * pow256((w - i) as nat));
            lemma_pow256_mono((w - i + 1) as nat, w as nat);
            assert(v * 256 + b < 256 * pow256((w - i) as nat)) by (nonlinear_arith)
                requires
                    v < pow256((w - i) as nat),
                    b < 256,
            ;
        }
        v = v * 256 + b as u64;
        i = i - 1;
    }
    assert(buf@.subrange(pos as int, end as int) =~= buf@.subrange(pos + i, end as int));
    Some(v)
}

/// Appends the `w` little-endian bytes of `v` to `out`.
pub fn write_le(out: &mut Vec<u8>, v: u64, w: usize)
    requires
        w <= 8,
    ensures
        final(out)@ == old(out)@ + le_bytes(v as nat, w as nat),
{
    let mut cur: u64 = v;
    let mut i: usize = 0;
    let ghost start = old(out)@;
    assert(start + le_bytes(v as nat, w as nat) =~= out@ + le_bytes(cur as nat, (w - i) as nat));
    while i < w
        invariant
            i <= w,
            start + le_bytes(v as nat, w as nat) == out@ + le_bytes(cur as nat, (w - i) as nat),
        decreases w - i,
    {
        let ghost before = out@;
        let byte: u8 = (cur % 256) as u8;
        let ghost tail = le_bytes((cur / 256) as nat, (w - i - 1) as nat);
        assert(le_bytes(cur as nat, (w - i) as nat) == seq![byte] + tail);
        out.push(byte);
        cur = cur / 256;
        i = i + 1;
        assert(before + (seq![byte] + tail) =~= out@ + tail);
    }
    assert(out@ + le_bytes(cur as nat, 0) =~= out@);
}

} // verus!
