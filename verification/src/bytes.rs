//! Byte sequences: integers in both byte orders, rows of bytes, copies.

use vstd::prelude::*;

verus! {

/// The contents of a sequence of byte vectors.
pub open spec fn rows(v: Seq<Vec<u8>>) -> Seq<Seq<u8>> {
    Seq::new(v.len(), |i: int| v[i]@)
}

/// The contents of a sequence of byte vectors that may be absent.
pub open spec fn optional_rows(v: Seq<Option<Vec<u8>>>) -> Seq<Option<Seq<u8>>> {
    Seq::new(
        v.len(),
        |i: int|
            match v[i] {
                Some(row) => Some(row@),
                None => None,
            },
    )
}

/// `n` zero bytes.
pub open spec fn zero_bytes(n: nat) -> Seq<u8> {
    Seq::new(n, |i: int| 0u8)
}

/// The first `n` bytes of `s`, or all of it where it has fewer.
pub open spec fn start_of(s: Seq<u8>, n: nat) -> Seq<u8> {
    if n < s.len() {
        s.take(n as int)
    } else {
        s
    }
}

/// All rows, one after the other.
pub open spec fn flat(rows: Seq<Seq<u8>>) -> Seq<u8>
    decreases rows.len(),
{
    if rows.len() == 0 {
        Seq::empty()
    } else {
        flat(rows.drop_last()) + rows.last()
    }
}

/// `n` in `width` bytes, the most significant first.
pub open spec fn big_endian(n: nat, width: nat) -> Seq<u8>
    decreases width,
{
    if width == 0 {
        Seq::empty()
    } else {
        big_endian(n / 256, (width - 1) as nat).push((n % 256) as u8)
    }
}

/// `n` in `width` bytes, the least significant first.
pub open spec fn little_endian(n: nat, width: nat) -> Seq<u8>
    decreases width,
{
    if width == 0 {
        Seq::empty()
    } else {
        seq![(n % 256) as u8] + little_endian(n / 256, (width - 1) as nat)
    }
}

/// The number that `s` denotes with the most significant byte first.
pub open spec fn big_endian_value(s: Seq<u8>) -> nat
    decreases s.len(),
{
    if s.len() == 0 {
        0
    } else {
        big_endian_value(s.drop_last()) * 256 + s.last() as nat
    }
}

/// 256 to the power of `w`.
pub open spec fn pow256(w: nat) -> nat
    decreases w,
{
    if w == 0 {
        1
    } else {
        256 * pow256((w - 1) as nat)
    }
}

/// A number written in enough bytes reads back as itself.
pub proof fn law_big_endian_reads_back(n: nat, width: nat)
    requires
        n < pow256(width),
    ensures
        big_endian(n, width).len() == width,
        big_endian_value(big_endian(n, width)) == n,
    decreases width,
{
    if width > 0 {
        law_big_endian_reads_back(n / 256, (width - 1) as nat);
        let s = big_endian(n, width);
        assert(s.drop_last() =~= big_endian(n / 256, (width - 1) as nat));
        assert(s.last() as nat == n % 256);
    }
}

/// The byte orders write as many bytes as they are asked for.
pub proof fn lemma_endian_len(n: nat, width: nat)
    ensures
        big_endian(n, width).len() == width,
        little_endian(n, width).len() == width,
    decreases width,
{
    if width > 0 {
        lemma_endian_len(n / 256, (width - 1) as nat);
    }
}

/// Eight bytes hold every `u64`.
pub proof fn lemma_pow256_8()
    ensures
        pow256(8) == 0x1_0000_0000_0000_0000,
{
    reveal_with_fuel(pow256, 9);
}

/// The eight bytes of `n`, the most significant first.
pub fn u64_to_be(n: u64) -> (r: [u8; 8])
    ensures
        r@ == big_endian(n as nat, 8),
{
    let mut out = [0u8; 8];
    let mut x = n;
    let mut i: usize = 8;
    proof {
        lemma_endian_len(n as nat, 8);
        assert(big_endian(n as nat, 8) + out@.subrange(8, 8) =~= big_endian(n as nat, 8));
    }
    while i > 0
        invariant
            i <= 8,
            big_endian(x as nat, i as nat) + out@.subrange(i as int, 8) == big_endian(n as nat, 8),
        decreases i,
    {
        i -= 1;
        let ghost before = out@;
        out[i] = (x % 256) as u8;
        proof {
            lemma_endian_len(x as nat / 256, i as nat);
            assert(out@.subrange(i as int, 8) =~= seq![(x % 256) as u8] + before.subrange(i + 1, 8));
            assert(big_endian(x as nat / 256, i as nat) + out@.subrange(i as int, 8) =~= big_endian(
                x as nat,
                (i + 1) as nat,
            ) + before.subrange(i + 1, 8));
        }
        x = x / 256;
    }
    assert(big_endian(x as nat, 0) + out@.subrange(0, 8) =~= out@);
    out
}

/// The eight bytes of `n`, the least significant first.
pub fn u64_to_le(n: u64) -> (r: Vec<u8>)
    ensures
        r@ == little_endian(n as nat, 8),
{
    let mut out: Vec<u8> = Vec::new();
    let mut x = n;
    let mut i: usize = 0;
    assert(out@ + little_endian(n as nat, 8) =~= little_endian(n as nat, 8));
    while i < 8
        invariant
            i <= 8,
            out@ + little_endian(x as nat, (8 - i) as nat) == little_endian(n as nat, 8),
        decreases 8 - i,
    {
        let ghost before = out@;
        out.push((x % 256) as u8);
        assert(out@ + little_endian(x as nat / 256, (7 - i) as nat) =~= before + little_endian(
            x as nat,
            (8 - i) as nat,
        ));
        x = x / 256;
        i += 1;
    }
    assert(out@ + little_endian(x as nat, 0) =~= out@);
    out
}

proof fn lemma_big_endian_value_bound(s: Seq<u8>)
    ensures
        big_endian_value(s) < pow256(s.len()),
    decreases s.len(),
{
    if s.len() > 0 {
        lemma_big_endian_value_bound(s.drop_last());
    }
}

/// The number in `buf[at..at + 8]`, the most significant byte first.
pub fn u64_from_be(buf: &[u8], at: usize) -> (r: u64)
    requires
        at + 8 <= buf@.len(),
    ensures
        r == big_endian_value(buf@.subrange(at as int, at + 8)),
{
    let mut x: u64 = 0;
    let mut i: usize = 0;
    let ghost all = buf@.subrange(at as int, at + 8);
    while i < 8
        invariant
            i <= 8,
            at + 8 <= buf@.len(),
            all == buf@.subrange(at as int, at + 8),
            x == big_endian_value(all.take(i as int)),
        decreases 8 - i,
    {
        proof {
            assert(all.take(i + 1).drop_last() =~= all.take(i as int));
            lemma_big_endian_value_bound(all.take(i + 1));
            reveal_with_fuel(pow256, 9);
        }
        assert(at + i < buf.len());
        x = x * 256 + buf[at + i] as u64;
        i += 1;
    }
    assert(all.take(8) =~= all);
    x
}

/// A copy of the bytes `buf[from..to]`.
pub fn copy_range(buf: &[u8], from: usize, to: usize) -> (r: Vec<u8>)
    requires
        from <= to <= buf@.len(),
    ensures
        r@ == buf@.subrange(from as int, to as int),
{
    vstd::slice::slice_to_vec(vstd::slice::slice_subrange(buf, from, to))
}

/// A copy of `buf`.
pub fn copy(buf: &[u8]) -> (r: Vec<u8>)
    ensures
        r@ == buf@,
{
    vstd::slice::slice_to_vec(buf)
}

/// The first `n` bytes of `buf` and `more` behind them, or all of it where it has fewer.
pub fn copy_start(buf: &[u8], n: usize, more: usize) -> (r: Vec<u8>)
    ensures
        r@ == start_of(buf@, (n + more) as nat),
{
    if n < buf.len() && more < buf.len() - n {
        copy_range(buf, 0, n + more)
    } else {
        copy(buf)
    }
}

/// A copy of `v`.
pub fn copy_rows(v: &Vec<Vec<u8>>) -> (r: Vec<Vec<u8>>)
    ensures
        rows(r@) == rows(v@),
{
    let mut out: Vec<Vec<u8>> = Vec::new();
    let mut i: usize = 0;
    while i < v.len()
        invariant
            i <= v@.len(),
            out@.len() == i,
            forall|j: int| 0 <= j < i ==> (#[trigger] out@[j])@ == v@[j]@,
        decreases v@.len() - i,
    {
        out.push(copy(v[i].as_slice()));
        i += 1;
    }
    assert(rows(out@) =~= rows(v@));
    out
}

/// `n` zero bytes.
pub fn zeroed(n: usize) -> (r: Vec<u8>)
    ensures
        r@ == zero_bytes(n as nat),
{
    let v: Vec<u8> = vec![0u8; n];
    assert(v@ =~= zero_bytes(n as nat));
    v
}

/// Whether two byte strings are the same.
pub fn same_bytes(a: &[u8], b: &[u8]) -> (r: bool)
    ensures
        r == (a@ == b@),
{
    if a.len() != b.len() {
        return false;
    }
    let mut i: usize = 0;
    while i < a.len()
        invariant
            i <= a@.len(),
            a@.len() == b@.len(),
            forall|j: int| 0 <= j < i ==> a@[j] == b@[j],
        decreases a@.len() - i,
    {
        if a[i] != b[i] {
            return false;
        }
        i += 1;
    }
    assert(a@ =~= b@);
    true
}

/// The 32 bytes `buf[at..at + 32]`.
pub fn take_32(buf: &[u8], at: usize) -> (r: [u8; 32])
    requires
        at + 32 <= buf@.len(),
    ensures
        r@ == buf@.subrange(at as int, at + 32),
{
    let mut out = [0u8; 32];
    let mut i: usize = 0;
    while i < 32
        invariant
            i <= 32,
            at + 32 <= buf@.len(),
            forall|j: int| 0 <= j < i ==> out@[j] == buf@[at + j],
        decreases 32 - i,
    {
        assert(at + i < buf.len());
        out[i] = buf[at + i];
        i += 1;
    }
    assert(out@ =~= buf@.subrange(at as int, at + 32));
    out
}

/// Different numbers below 256 to the power of the width have different bytes,
/// the least significant first.
pub proof fn law_little_endian_tells_numbers_apart(a: nat, b: nat, width: nat)
    requires
        a < pow256(width),
        b < pow256(width),
        little_endian(a, width) == little_endian(b, width),
    ensures
        a == b,
    decreases width,
{
    if width > 0 {
        let (x, y) = (little_endian(a, width), little_endian(b, width));
        let rest = (width - 1) as nat;
        assert(x[0] == (a % 256) as u8 && y[0] == (b % 256) as u8);
        assert(x.skip(1) =~= little_endian(a / 256, rest));
        assert(y.skip(1) =~= little_endian(b / 256, rest));
        law_little_endian_tells_numbers_apart(a / 256, b / 256, rest);
    }
}

} // verus!
