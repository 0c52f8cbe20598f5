//! Little-endian integer encoding used by every on-disk structure.
use vstd::prelude::*;
use vstd::arithmetic::div_mod::lemma_breakdown;

verus! {

/// `256^n`.
pub open spec fn byte_base(n: nat) -> nat
    decreases n,
{
    if n == 0 {
        1
    } else {
        256 * byte_base((n - 1) as nat)
    }
}

/// The `n` low-order bytes of `v`, least significant first.
pub open spec fn le_bytes(v: nat, n: nat) -> Seq<u8>
    decreases n,
{
    if n == 0 {
        Seq::empty()
    } else {
        seq![(v % 256) as u8] + le_bytes(v / 256, (n - 1) as nat)
    }
}

/// The number whose little-endian bytes are `s`.
pub open spec fn le_value(s: Seq<u8>) -> nat
    decreases s.len(),
{
    if s.len() == 0 {
        0
    } else {
        s[0] as nat + 256 * le_value(s.drop_first())
    }
}

pub proof fn lemma_byte_base_positive(n: nat)
    ensures
        byte_base(n) > 0,
    decreases n,
{
    if n > 0 {
        lemma_byte_base_positive((n - 1) as nat);
    }
}

pub proof fn lemma_le_bytes_len(v: nat, n: nat)
    ensures
        le_bytes(v, n).len() == n,
    decreases n,
{
    if n > 0 {
        lemma_le_bytes_len(v / 256, (n - 1) as nat);
    }
}

/// Decoding the `n` little-endian bytes of `v` gives `v` modulo `256^n`.
pub proof fn lemma_le_round_trip(v: nat, n: nat)
    ensures
        le_value(le_bytes(v, n)) == v % byte_base(n),
        le_bytes(v, n).len() == n,
    decreases n,
{
    lemma_le_bytes_len(v, n);
    if n > 0 {
        let rest = le_bytes(v / 256, (n - 1) as nat);
        lemma_le_round_trip(v / 256, (n - 1) as nat);
        lemma_byte_base_positive((n - 1) as nat);
        assert((seq![(v % 256) as u8] + rest).drop_first() =~= rest);
        lemma_breakdown(v as int, 256, byte_base((n - 1) as nat) as int);
    }
}

/// A value of `n` bytes is below `256^n`.
pub proof fn lemma_le_value_bound(s: Seq<u8>)
    ensures
        le_value(s) < byte_base(s.len()),
    decreases s.len(),
{
    if s.len() > 0 {
        lemma_le_value_bound(s.drop_first());
        assert(byte_base(s.len()) == 256 * byte_base(s.drop_first().len()));
        assert(s[0] as nat + 256 * le_value(s.drop_first()) < 256 * byte_base(s.drop_first().len()))
            by (nonlinear_arith)
            requires
                s[0] < 256,
                le_value(s.drop_first()) < byte_base(s.drop_first().len()),
        ;
    }
}

pub proof fn lemma_byte_base_values()
    ensures
        byte_base(2) == 0x1_0000,
        byte_base(4) == 0x1_0000_0000,
        byte_base(8) == 0x1_0000_0000_0000_0000,
{
    reveal_with_fuel(byte_base, 9);
}

/// Appends the `n` low-order bytes of `v` to `buf`, least significant first.
pub fn push_le(buf: &mut Vec<u8>, v: u64, n: usize)
    requires
        n <= 8,
    ensures
        final(buf)@ == old(buf)@ + le_bytes(v as nat, n as nat),
{
    let mut cur: u64 = v;
    let mut i: usize = 0;
    let ghost pushed: Seq<u8> = Seq::empty();
    while i < n
        invariant
            i <= n,
            buf@ == old(buf)@ + pushed,
            le_bytes(v as nat, n as nat) == pushed + le_bytes(cur as nat, (n - i) as nat),
        decreases n - i,
    {
        let b = (cur % 256) as u8;
        proof {
            assert(le_bytes(cur as nat, (n - i) as nat) == seq![b] + le_bytes(
                (cur / 256) as nat,
                (n - i - 1) as nat,
            ));
            assert(pushed + le_bytes(cur as nat, (n - i) as nat) =~= (pushed + seq![b])
                + le_bytes((cur / 256) as nat, (n - i - 1) as nat));
            pushed = pushed + seq![b];
        }
        buf.push(b);
        cur = cur / 256;
        i = i + 1;
    }
    assert(le_bytes(cur as nat, 0) =~= Seq::<u8>::empty());
    assert(pushed + Seq::<u8>::empty() =~= pushed);
}

/// Reads the little-endian number held in `bytes[off..off + n]`.
pub fn read_le(bytes: &[u8], off: usize, n: usize) -> (r: u64)
    requires
        n <= 8,
        off + n <= bytes@.len(),
    ensures
        r as nat == le_value(bytes@.subrange(off as int, off + n)),
{
    let mut acc: u64 = 0;
    let mut i: usize = n;
    assert(bytes@.len() == bytes.len());
    proof {
        lemma_byte_base_values();
        assert(bytes@.subrange(off + n, off + n) =~= Seq::<u8>::empty());
    }
    while i > 0
        invariant
            i <= n <= 8,
            off + n <= bytes.len(),
            acc as nat == le_value(bytes@.subrange(off + i, off + n)),
            byte_base(8) == 0x1_0000_0000_0000_0000,
        decreases i,
    {
        i = i - 1;
        let ghost tail = bytes@.subrange(off + i + 1, off + n);
        let ghost whole = bytes@.subrange(off + i, off + n);
        proof {
            assert(whole.drop_first() =~= tail);
            lemma_le_value_bound(whole);
            lemma_byte_base_monotone(whole.len(), 8);
        }
        acc = acc * 256 + bytes[off + i] as u64;
    }
    acc
}

pub proof fn lemma_byte_base_monotone(a: nat, b: nat)
    requires
        a <= b,
    ensures
        byte_base(a) <= byte_base(b),
    decreases b,
{
    if a < b {
        lemma_byte_base_monotone(a, (b - 1) as nat);
        lemma_byte_base_positive((b - 1) as nat);
    }
}

} // verus!
