//! Fixed-width integers as bytes, and the lemmas that read them back.

use vstd::prelude::*;

verus! {

/// `256^n`: one more than the largest value that `n` bytes hold.
pub open spec fn byte_cap(n: nat) -> nat
    decreases n,
{
    if n == 0 {
        1
    } else {
        256 * byte_cap((n - 1) as nat)
    }
}

/// The lowest `n` bytes of `v`, least significant first.
pub open spec fn le_bytes(v: nat, n: nat) -> Seq<u8>
    decreases n,
{
    if n == 0 {
        Seq::empty()
    } else {
        seq![(v % 256) as u8] + le_bytes(v / 256, (n - 1) as nat)
    }
}

/// The value of bytes read least significant first.
pub open spec fn le_value(b: Seq<u8>) -> nat
    decreases b.len(),
{
    if b.len() == 0 {
        0
    } else {
        b[0] as nat + 256 * le_value(b.drop_first())
    }
}

/// The lowest `n` bytes of `v`, most significant first.
pub open spec fn be_bytes(v: nat, n: nat) -> Seq<u8> {
    le_bytes(v, n).reverse()
}

/// The value of bytes read most significant first.
pub open spec fn be_value(b: Seq<u8>) -> nat {
    le_value(b.reverse())
}

pub proof fn lemma_le_bytes_len(v: nat, n: nat)
    ensures
        le_bytes(v, n).len() == n,
    decreases n,
{
    if n > 0 {
        lemma_le_bytes_len(v / 256, (n - 1) as nat);
    }
}

pub proof fn lemma_byte_cap_values()
    ensures
        byte_cap(8) == 0x1_0000_0000_0000_0000nat,
        byte_cap(16) == 0x1_0000_0000_0000_0000_0000_0000_0000_0000nat,
{
    reveal_with_fuel(byte_cap, 17);
}

pub proof fn lemma_byte_cap_monotone(a: nat, b: nat)
    requires
        a <= b,
    ensures
        byte_cap(a) <= byte_cap(b),
    decreases b,
{
    if a < b {
        lemma_byte_cap_monotone(a, (b - 1) as nat);
    }
}

pub proof fn lemma_le_value_bound(b: Seq<u8>)
    ensures
        le_value(b) < byte_cap(b.len()),
    decreases b.len(),
{
    if b.len() > 0 {
        lemma_le_value_bound(b.drop_first());
        let r = le_value(b.drop_first());
        let c = byte_cap((b.len() - 1) as nat);
        assert(b[0] as nat + 256 * r < 256 * c) by (nonlinear_arith)
            requires
                r < c,
                b[0] < 256,
        ;
    }
}

/// Bytes written by `le_bytes` read back to the value.
pub proof fn lemma_le_round_trip(v: nat, n: nat)
    requires
        v < byte_cap(n),
    ensures
        le_value(le_bytes(v, n)) == v,
    decreases n,
{
    if n > 0 {
        let c = byte_cap((n - 1) as nat);
        assert(v / 256 < c) by (nonlinear_arith)
            requires
                v < 256 * c,
        ;
        lemma_le_round_trip(v / 256, (n - 1) as nat);
        assert(le_bytes(v, n).drop_first() =~= le_bytes(v / 256, (n - 1) as nat));
        assert(v == v % 256 + 256 * (v / 256)) by (nonlinear_arith);
    }
}

/// Bytes written by `be_bytes` read back to the value.
pub proof fn lemma_be_round_trip(v: nat, n: nat)
    requires
        v < byte_cap(n),
    ensures
        be_value(be_bytes(v, n)) == v,
{
    assert(le_bytes(v, n).reverse().reverse() =~= le_bytes(v, n));
    lemma_le_round_trip(v, n);
}

/// Appends the lowest `n` bytes of `v`, least significant first.
pub fn push_le(out: &mut Vec<u8>, v: u128, n: usize)
    ensures
        final(out)@ == old(out)@ + le_bytes(v as nat, n as nat),
{
    let mut x: u128 = v;
    let mut i: usize = 0;
    while i < n
        invariant
            i <= n,
            out@ + le_bytes(x as nat, (n - i) as nat) == old(out)@ + le_bytes(v as nat, n as nat),
        decreases n - i,
    {
        let ghost before = out@;
        out.push((x % 256) as u8);
        assert(le_bytes(x as nat, (n - i) as nat) == seq![(x % 256) as u8] + le_bytes(
            (x / 256) as nat,
            (n - i - 1) as nat,
        ));
        assert(before + le_bytes(x as nat, (n - i) as nat) =~= out@ + le_bytes(
            (x / 256) as nat,
            (n - i - 1) as nat,
        ));
        x = x / 256;
        i = i + 1;
    }
    assert(out@ =~= old(out)@ + le_bytes(v as nat, n as nat));
}

/// Appends the lowest `n` bytes of `v`, most significant first.
pub fn push_be(out: &mut Vec<u8>, v: u128, n: usize)
    ensures
        final(out)@ == old(out)@ + be_bytes(v as nat, n as nat),
{
    let mut le: Vec<u8> = Vec::new();
    push_le(&mut le, v, n);
    proof {
        lemma_le_bytes_len(v as nat, n as nat);
        assert(le@ =~= le_bytes(v as nat, n as nat));
    }
    let mut i: usize = n;
    while i > 0
        invariant
            i <= n,
            le@.len() == n,
            le@ == le_bytes(v as nat, n as nat),
            out@ == old(out)@ + le@.subrange(i as int, n as int).reverse(),
        decreases i,
    {
        i = i - 1;
        let ghost before = out@;
        out.push(le[i]);
        assert(le@.subrange(i as int, n as int).reverse() =~= le@.subrange(
            (i + 1) as int,
            n as int,
        ).reverse().push(le@[i as int]));
    }
    assert(le@.subrange(0, n as int) =~= le@);
}

/// Reads `n` bytes at `pos`, least significant first.
pub fn read_le(b: &[u8], pos: usize, n: usize) -> (r: u128)
    requires
        pos + n <= b@.len(),
        n <= 16,
    ensures
        r as nat == le_value(b@.subrange(pos as int, (pos + n) as int)),
{
    let len = b.len();
    let mut acc: u128 = 0;
    let mut i: usize = n;
    proof {
        lemma_byte_cap_values();
    }
    while i > 0
        invariant
            i <= n <= 16,
            pos + n <= len,
            len == b@.len(),
            acc as nat == le_value(b@.subrange((pos + i) as int, (pos + n) as int)),
            byte_cap(16) == 0x1_0000_0000_0000_0000_0000_0000_0000_0000nat,
        decreases i,
    {
        i = i - 1;
        let ghost rest = b@.subrange((pos + i + 1) as int, (pos + n) as int);
        let ghost cur = b@.subrange((pos + i) as int, (pos + n) as int);
        proof {
            lemma_le_value_bound(rest);
            lemma_byte_cap_monotone(rest.len(), 15);
            assert(cur.drop_first() =~= rest);
            let c = byte_cap(15);
            assert(byte_cap(16) == 256 * c);
            let a = acc as nat;
            assert(b[(pos + i) as int] as nat + 256 * a < 256 * c) by (nonlinear_arith)
                requires
                    a < c,
                    b[(pos + i) as int] < 256,
            ;
        }
        acc = b[pos + i] as u128 + 256 * acc;
    }
    acc
}

/// Reads `n` bytes at `pos`, most significant first.
pub fn read_be(b: &[u8], pos: usize, n: usize) -> (r: u128)
    requires
        pos + n <= b@.len(),
        n <= 16,
    ensures
        r as nat == be_value(b@.subrange(pos as int, (pos + n) as int)),
{
    let len = b.len();
    let mut rev: Vec<u8> = Vec::new();
    let mut i: usize = n;
    while i > 0
        invariant
            i <= n,
            pos + n <= len,
            len == b@.len(),
            rev@ == b@.subrange((pos + i) as int, (pos + n) as int).reverse(),
        decreases i,
    {
        i = i - 1;
        rev.push(b[pos + i]);
        assert(rev@ =~= b@.subrange((pos + i) as int, (pos + n) as int).reverse());
    }
    assert(rev@.subrange(0, n as int) =~= rev@);
    read_le(rev.as_slice(), 0, n)
}

} // verus!

verus! {

/// Appends every byte of `src`.
pub fn append_bytes(out: &mut Vec<u8>, src: &[u8])
    ensures
        final(out)@ == old(out)@ + src@,
{
    let n = src.len();
    let mut i: usize = 0;
    while i < n
        invariant
            i <= n,
            n == src@.len(),
            out@ == old(out)@ + src@.subrange(0, i as int),
        decreases n - i,
    {
        out.push(src[i]);
        assert(src@.subrange(0, (i + 1) as int) =~= src@.subrange(0, i as int).push(src@[i as int]));
        i = i + 1;
    }
    assert(src@.subrange(0, n as int) =~= src@);
}

/// The bytes of `b` from `start` up to `end`.
pub fn copy_range(b: &[u8], start: usize, end: usize) -> (r: Vec<u8>)
    requires
        start <= end <= b@.len(),
    ensures
        r@ == b@.subrange(start as int, end as int),
{
    let mut out: Vec<u8> = Vec::new();
    let mut i: usize = start;
    while i < end
        invariant
            start <= i <= end <= b@.len(),
            out@ == b@.subrange(start as int, i as int),
        decreases end - i,
    {
        out.push(b[i]);
        assert(b@.subrange(start as int, (i + 1) as int) =~= b@.subrange(start as int, i as int).push(
            b@[i as int],
        ));
        i = i + 1;
    }
    out
}

/// Whether two 32-byte keys are equal.
pub fn same_key(a: &[u8; 32], b: &[u8; 32]) -> (r: bool)
    ensures
        r == (a@ == b@),
{
    let mut i: usize = 0;
    while i < 32
        invariant
            i <= 32,
            a@.len() == 32,
            b@.len() == 32,
            forall|j: int| 0 <= j < i ==> a@[j] == b@[j],
        decreases 32 - i,
    {
        if a[i] != b[i] {
            return false;
        }
        i = i + 1;
    }
    assert(a@ =~= b@);
    true
}

} // verus!

verus! {

/// The 32-byte key held in `b`, when `b` has exactly 32 bytes.
pub fn to_key(b: &[u8]) -> (r: Option<[u8; 32]>)
    ensures
        r is Some <==> b@.len() == 32,
        r matches Some(k) ==> k@ == b@,
{
    if b.len() != 32 {
        return None;
    }
    let mut k = [0u8; 32];
    let mut i: usize = 0;
    while i < 32
        invariant
            i <= 32,
            b@.len() == 32,
            k@.len() == 32,
            forall|j: int| 0 <= j < i ==> k@[j] == b@[j],
        decreases 32 - i,
    {
        k[i] = b[i];
        i = i + 1;
    }
    assert(k@ =~= b@);
    Some(k)
}

} // verus!
