//! Little-endian integers and byte strings: the mathematical reading of a
//! byte string as a number, and the few executable helpers built on it.

use vstd::prelude::*;

verus! {

/// The number that a byte string spells, least significant byte first.
pub open spec fn le_nat(b: Seq<u8>) -> nat
    decreases b.len(),
{
    if b.len() == 0 {
        0
    } else {
        b[0] as nat + 256 * le_nat(b.skip(1))
    }
}

/// The `n` least significant bytes of `x`, least significant byte first.
pub open spec fn le_bytes(x: nat, n: nat) -> Seq<u8>
    decreases n,
{
    if n == 0 {
        Seq::empty()
    } else {
        seq![(x % 256) as u8] + le_bytes(x / 256, (n - 1) as nat)
    }
}

/// 256 to the power `n`.
pub open spec fn pow256(n: nat) -> nat
    decreases n,
{
    if n == 0 {
        1
    } else {
        256 * pow256((n - 1) as nat)
    }
}

pub proof fn lemma_le_bytes_len(x: nat, n: nat)
    ensures
        le_bytes(x, n).len() == n,
    decreases n,
{
    if n > 0 {
        lemma_le_bytes_len(x / 256, (n - 1) as nat);
    }
}

/// A byte string of length `n` spells a number below `256^n`.
pub proof fn lemma_le_nat_bound(b: Seq<u8>)
    ensures
        le_nat(b) < pow256(b.len()),
    decreases b.len(),
{
    if b.len() > 0 {
        lemma_le_nat_bound(b.skip(1));
    }
}

/// Spelling out a number below `256^n` on `n` bytes and reading it back
/// gives the number.
pub proof fn lemma_le_nat_of_le_bytes(x: nat, n: nat)
    requires
        x < pow256(n),
    ensures
        le_nat(le_bytes(x, n)) == x,
    decreases n,
{
    if n > 0 {
        let rest = le_bytes(x / 256, (n - 1) as nat);
        let all = le_bytes(x, n);
        lemma_le_bytes_len(x / 256, (n - 1) as nat);
        assert(all.skip(1) =~= rest);
        assert(x / 256 < pow256((n - 1) as nat)) by (nonlinear_arith)
            requires
                x < 256 * pow256((n - 1) as nat),
        ;
        lemma_le_nat_of_le_bytes(x / 256, (n - 1) as nat);
        assert(all[0] == (x % 256) as u8);
    }
}

/// Reading a byte string and spelling the number out again on as many bytes
/// gives the byte string.
pub proof fn lemma_le_bytes_of_le_nat(b: Seq<u8>)
    ensures
        le_bytes(le_nat(b), b.len()) == b,
    decreases b.len(),
{
    if b.len() > 0 {
        let x = le_nat(b);
        let tail = b.skip(1);
        lemma_le_bytes_of_le_nat(tail);
        assert(x % 256 == b[0] as nat && x / 256 == le_nat(tail)) by (nonlinear_arith)
            requires
                x == b[0] as nat + 256 * le_nat(tail),
                b[0] as nat <= 255,
        ;
        assert(le_bytes(x, b.len()) =~= b);
    } else {
        assert(le_bytes(le_nat(b), b.len()) =~= b);
    }
}

/// Two byte strings of one length that spell the same number are equal.
pub proof fn lemma_le_nat_injective(a: Seq<u8>, b: Seq<u8>)
    requires
        a.len() == b.len(),
        le_nat(a) == le_nat(b),
    ensures
        a == b,
{
    lemma_le_bytes_of_le_nat(a);
    lemma_le_bytes_of_le_nat(b);
}

/// The four bytes of a `u32`, least significant first.
pub open spec fn le32(x: u32) -> Seq<u8> {
    le_bytes(x as nat, 4)
}

/// The eight bytes of a `u64`, least significant first.
pub open spec fn le64(x: u64) -> Seq<u8> {
    le_bytes(x as nat, 8)
}

pub proof fn lemma_pow256_values()
    ensures
        pow256(4) == 0x1_0000_0000,
        pow256(8) == 0x1_0000_0000_0000_0000,
{
    reveal_with_fuel(pow256, 9);
}

/// Distinct `u32` values have distinct little-endian spellings.
pub proof fn lemma_le32_injective(x: u32, y: u32)
    requires
        le32(x) == le32(y),
    ensures
        x == y,
{
    lemma_pow256_values();
    lemma_le_nat_of_le_bytes(x as nat, 4);
    lemma_le_nat_of_le_bytes(y as nat, 4);
}

/// Appends the four little-endian bytes of `x`.
pub fn put_u32(out: &mut Vec<u8>, x: u32)
    ensures
        final(out)@ == old(out)@ + le32(x),
{
    let ghost before = out@;
    let mut rest: u32 = x;
    let mut k: usize = 0;
    while k < 4
        invariant
            k <= 4,
            out@ + le_bytes(rest as nat, (4 - k) as nat) == before + le32(x),
        decreases 4 - k,
    {
        let ghost prev = out@;
        out.push((rest % 256) as u8);
        proof {
            let tail = le_bytes(rest as nat / 256, (4 - k - 1) as nat);
            assert(le_bytes(rest as nat, (4 - k) as nat) == seq![(rest as nat % 256) as u8] + tail);
            assert(out@ + tail =~= prev + (seq![(rest as nat % 256) as u8] + tail));
        }
        rest = rest / 256;
        k += 1;
    }
    assert(le_bytes(rest as nat, 0) =~= Seq::<u8>::empty());
    assert(out@ + Seq::<u8>::empty() =~= out@);
}

/// Appends the eight little-endian bytes of `x`.
pub fn put_u64(out: &mut Vec<u8>, x: u64)
    ensures
        final(out)@ == old(out)@ + le64(x),
{
    let ghost before = out@;
    let mut rest: u64 = x;
    let mut k: usize = 0;
    while k < 8
        invariant
            k <= 8,
            out@ + le_bytes(rest as nat, (8 - k) as nat) == before + le64(x),
        decreases 8 - k,
    {
        let ghost prev = out@;
        out.push((rest % 256) as u8);
        proof {
            let tail = le_bytes(rest as nat / 256, (8 - k - 1) as nat);
            assert(le_bytes(rest as nat, (8 - k) as nat) == seq![(rest as nat % 256) as u8] + tail);
            assert(out@ + tail =~= prev + (seq![(rest as nat % 256) as u8] + tail));
        }
        rest = rest / 256;
        k += 1;
    }
    assert(le_bytes(rest as nat, 0) =~= Seq::<u8>::empty());
    assert(out@ + Seq::<u8>::empty() =~= out@);
}

/// Appends every byte of `src`.
pub fn put_bytes(out: &mut Vec<u8>, src: &[u8])
    ensures
        final(out)@ == old(out)@ + src@,
{
    let ghost before = out@;
    let mut k: usize = 0;
    while k < src.len()
        invariant
            k <= src.len(),
            out@ == before + src@.take(k as int),
        decreases src.len() - k,
    {
        out.push(src[k]);
        assert(out@ =~= before + src@.take(k + 1));
        k += 1;
    }
    assert(src@.take(src.len() as int) =~= src@);
}

/// Reads the number spelled by the `width` bytes of `b` that start at `at`.
pub fn read_le(b: &[u8], at: usize, width: usize) -> (r: u64)
    requires
        width <= 8,
        at + width <= b.len(),
    ensures
        r == le_nat(b@.subrange(at as int, at + width)),
{
    let mut acc: u64 = 0;
    let mut k: usize = width;
    proof {
        assert(b@.subrange(at + width, at + width) =~= Seq::<u8>::empty());
        lemma_pow256_values();
    }
    while k > 0
        invariant
            k <= width <= 8,
            at + width <= b.len(),
            acc == le_nat(b@.subrange(at + k, at + width)),
        decreases k,
    {
        let ghost upper = b@.subrange(at + k, at + width);
        let ghost whole = b@.subrange(at + k - 1, at + width);
        proof {
            lemma_le_nat_bound(upper);
            assert(whole.skip(1) =~= upper);
            assert(whole[0] == b@[at + k - 1]);
            lemma_pow256_monotone((width - k) as nat, 7);
            reveal_with_fuel(pow256, 8);
            assert(pow256(7) == 0x1_0000_0000_0000_00);
        }
        k -= 1;
        acc = acc * 256 + b[at + k] as u64;
    }
    acc
}

pub proof fn lemma_pow256_monotone(m: nat, n: nat)
    requires
        m <= n,
    ensures
        pow256(m) <= pow256(n),
    decreases n,
{
    if m < n {
        lemma_pow256_monotone(m, (n - 1) as nat);
    }
}

/// The byte strings of a list, one after another.
pub open spec fn concat_all(parts: Seq<Seq<u8>>) -> Seq<u8>
    decreases parts.len(),
{
    if parts.len() == 0 {
        Seq::empty()
    } else {
        concat_all(parts.drop_last()) + parts.last()
    }
}

/// The contents of a list of byte vectors.
pub open spec fn views(parts: Seq<Vec<u8>>) -> Seq<Seq<u8>> {
    Seq::new(parts.len(), |i: int| parts[i]@)
}

/// Concatenating byte strings that all have length `w` gives `w` bytes per
/// string, the string `i` standing at offset `i * w`.
pub proof fn lemma_concat_all_fixed(parts: Seq<Seq<u8>>, w: nat)
    requires
        forall|i: int| 0 <= i < parts.len() ==> (#[trigger] parts[i]).len() == w,
    ensures
        concat_all(parts).len() == parts.len() * w,
        forall|i: int|
            0 <= i < parts.len() ==> #[trigger] parts[i] == concat_all(parts).subrange(
                i * w,
                i * w + w,
            ),
    decreases parts.len(),
{
    if parts.len() > 0 {
        let front = parts.drop_last();
        lemma_concat_all_fixed(front, w);
        let whole = concat_all(parts);
        assert(front.len() * w + w == parts.len() * w) by (nonlinear_arith)
            requires
                front.len() + 1 == parts.len(),
        ;
        assert forall|i: int| 0 <= i < parts.len() implies #[trigger] parts[i] == whole.subrange(
            i * w,
            i * w + w,
        ) by {
            if i < front.len() {
                assert(i * w + w <= front.len() * w) by (nonlinear_arith)
                    requires
                        0 <= i < front.len(),
                ;
                assert(i * w >= 0) by (nonlinear_arith)
                    requires
                        0 <= i,
                ;
                assert(front[i] == parts[i]);
                assert(whole.subrange(i * w, i * w + w) =~= concat_all(front).subrange(
                    i * w,
                    i * w + w,
                ));
            } else {
                assert(i * w == front.len() * w);
                assert(whole.subrange(i * w, i * w + w) =~= parts.last());
            }
        }
    } else {
        assert(parts.len() * w == 0) by (nonlinear_arith)
            requires
                parts.len() == 0,
        ;
    }
}

/// Appends every byte string of a list, in order.
pub fn put_all(out: &mut Vec<u8>, parts: &[Vec<u8>])
    ensures
        final(out)@ == old(out)@ + concat_all(views(parts@)),
{
    let ghost before = out@;
    let mut k: usize = 0;
    assert(views(parts@).take(0) =~= Seq::<Seq<u8>>::empty());
    assert(before + concat_all(Seq::<Seq<u8>>::empty()) =~= before);
    while k < parts.len()
        invariant
            k <= parts.len(),
            out@ == before + concat_all(views(parts@).take(k as int)),
        decreases parts.len() - k,
    {
        put_bytes(out, parts[k].as_slice());
        proof {
            let next = views(parts@).take(k + 1);
            assert(next.drop_last() =~= views(parts@).take(k as int));
            assert(next.last() == parts@[k as int]@);
            assert(out@ =~= before + concat_all(next));
        }
        k += 1;
    }
    assert(views(parts@).take(parts.len() as int) =~= views(parts@));
}

/// Whether two byte strings are equal.
pub fn bytes_eq(a: &[u8], b: &[u8]) -> (r: bool)
    ensures
        r == (a@ == b@),
{
    if a.len() != b.len() {
        return false;
    }
    let mut k: usize = 0;
    while k < a.len()
        invariant
            k <= a.len(),
            a.len() == b.len(),
            a@.take(k as int) == b@.take(k as int),
        decreases a.len() - k,
    {
        if a[k] != b[k] {
            return false;
        }
        assert(a@.take(k + 1) =~= a@.take(k as int).push(a@[k as int]));
        assert(b@.take(k + 1) =~= b@.take(k as int).push(b@[k as int]));
        k += 1;
    }
    assert(a@.take(a.len() as int) =~= a@);
    assert(b@.take(b.len() as int) =~= b@);
    true
}

/// A copy of the byte string.
pub fn copy_bytes(src: &[u8]) -> (r: Vec<u8>)
    ensures
        r@ == src@,
{
    let mut out: Vec<u8> = Vec::new();
    put_bytes(&mut out, src);
    assert(Seq::<u8>::empty() + src@ =~= src@);
    out
}

/// Whether two lists of byte strings are equal.
pub fn lists_eq(a: &Vec<Vec<u8>>, b: &Vec<Vec<u8>>) -> (r: bool)
    ensures
        r == (views(a@) == views(b@)),
{
    if a.len() != b.len() {
        assert(views(a@).len() != views(b@).len());
        return false;
    }
    let mut k: usize = 0;
    while k < a.len()
        invariant
            k <= a.len(),
            a.len() == b.len(),
            forall|j: int| 0 <= j < k ==> (#[trigger] a@[j])@ == b@[j]@,
        decreases a.len() - k,
    {
        if !bytes_eq(a[k].as_slice(), b[k].as_slice()) {
            assert(views(a@)[k as int] != views(b@)[k as int]);
            return false;
        }
        k += 1;
    }
    assert(views(a@) =~= views(b@));
    true
}

/// A copy of a list of byte strings.
pub fn copy_list(src: &Vec<Vec<u8>>) -> (r: Vec<Vec<u8>>)
    ensures
        views(r@) == views(src@),
{
    let mut out: Vec<Vec<u8>> = Vec::new();
    let mut k: usize = 0;
    while k < src.len()
        invariant
            k <= src.len(),
            out@.len() == k,
            forall|j: int| 0 <= j < k ==> (#[trigger] out@[j])@ == src@[j]@,
        decreases src.len() - k,
    {
        out.push(copy_bytes(src[k].as_slice()));
        k += 1;
    }
    assert(views(out@) =~= views(src@));
    out
}

} // verus!
