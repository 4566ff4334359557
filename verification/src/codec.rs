//! The byte encoding of a deal.
//!
//! Integers are little-endian of fixed width, a byte string is its length on
//! eight bytes followed by its bytes, a list is its length on eight bytes
//! followed by its items, and a scalar is its 32 canonical bytes. A deal is
//! its fields in order. The encoding determines the deal, and the decoder
//! accepts exactly the encodings.

use vstd::prelude::*;
use crate::bytes::{
    le32,
    le_bytes,
    lemma_le_bytes_len,
    lemma_le_bytes_of_le_nat,
    lemma_le_nat_bound,
    lemma_le_nat_of_le_bytes,
    lemma_pow256_values,
    pow256,
    put_bytes,
    put_u32,
    put_u64,
    read_le,
    views,
};
use crate::deal::{Deal, DealView};
use crate::poly::PriShare;
use crate::scalar::{scalar_order, Scalar};

verus! {

/// The encoding of a byte string: its length on eight bytes, then its bytes.
pub open spec fn encode_bytes(s: Seq<u8>) -> Seq<u8> {
    le_bytes(s.len(), 8) + s
}

/// The encodings of the byte strings of a list, one after another.
pub open spec fn encode_items(l: Seq<Seq<u8>>) -> Seq<u8>
    decreases l.len(),
{
    if l.len() == 0 {
        Seq::empty()
    } else {
        encode_items(l.drop_last()) + encode_bytes(l.last())
    }
}

/// The encoding of a list of byte strings: its length on eight bytes, then
/// the encoding of each item.
pub open spec fn encode_list(l: Seq<Seq<u8>>) -> Seq<u8> {
    le_bytes(l.len(), 8) + encode_items(l)
}

/// The encoding of a share: its index on four bytes, then the 32 bytes of
/// its value.
pub open spec fn encode_share(i: u32, v: nat) -> Seq<u8> {
    le32(i) + le_bytes(v, 32)
}

/// The encoding of a deal: session identifier, secret share, blinding
/// share, threshold, commitments.
pub open spec fn encode_deal(v: DealView) -> Seq<u8> {
    encode_bytes(v.session_id) + encode_share(v.sec_index, v.sec_value) + encode_share(
        v.rnd_index,
        v.rnd_value,
    ) + le32(v.t) + encode_list(v.commitments)
}

/// Whether a deal can be encoded: its share values are below the group
/// order and every length fits on eight bytes.
pub open spec fn encodable(v: DealView) -> bool {
    &&& v.wf()
    &&& v.session_id.len() < pow256(8)
    &&& v.commitments.len() < pow256(8)
    &&& forall|k: int| 0 <= k < v.commitments.len() ==> (#[trigger] v.commitments[k]).len() < pow256(8)
}

/// Whether `piece` stands in `b` at offset `at`.
pub open spec fn starts_at(b: Seq<u8>, at: int, piece: Seq<u8>) -> bool {
    0 <= at && at + piece.len() <= b.len() && b.subrange(at, at + piece.len()) == piece
}

/// A concatenation stands at an offset exactly when its first part stands
/// there and its second part right behind.
pub proof fn lemma_starts_at_concat(b: Seq<u8>, at: int, p: Seq<u8>, q: Seq<u8>)
    ensures
        starts_at(b, at, p + q) <==> (starts_at(b, at, p) && starts_at(b, at + p.len(), q)),
{
    if starts_at(b, at, p + q) {
        let whole = b.subrange(at, at + (p + q).len());
        assert forall|i: int| 0 <= i < p.len() implies b.subrange(at, at + p.len())[i] == p[i] by {
            assert(whole[i] == (p + q)[i]);
        }
        assert(b.subrange(at, at + p.len()) =~= p);
        assert forall|i: int| 0 <= i < q.len() implies b.subrange(
            at + p.len(),
            at + p.len() + q.len(),
        )[i] == q[i] by {
            assert(whole[p.len() + i] == (p + q)[p.len() + i]);
        }
        assert(b.subrange(at + p.len(), at + p.len() + q.len()) =~= q);
    }
    if starts_at(b, at, p) && starts_at(b, at + p.len(), q) {
        let first = b.subrange(at, at + p.len());
        let second = b.subrange(at + p.len(), at + p.len() + q.len());
        assert forall|i: int| 0 <= i < (p + q).len() implies b.subrange(at, at + (p + q).len())[i]
            == (p + q)[i] by {
            if i < p.len() {
                assert(first[i] == p[i]);
            } else {
                assert(second[i - p.len()] == q[i - p.len()]);
            }
        }
        assert(b.subrange(at, at + (p + q).len()) =~= p + q);
    }
}

/// At one offset stands the spelling of at most one number of a given
/// width.
pub proof fn lemma_uint_unique(b: Seq<u8>, at: int, x: nat, y: nat, w: nat)
    requires
        starts_at(b, at, le_bytes(x, w)),
        starts_at(b, at, le_bytes(y, w)),
        x < pow256(w),
        y < pow256(w),
    ensures
        x == y,
{
    lemma_le_bytes_len(x, w);
    lemma_le_bytes_len(y, w);
    lemma_le_nat_of_le_bytes(x, w);
    lemma_le_nat_of_le_bytes(y, w);
}

/// At one offset stands the encoding of at most one byte string.
pub proof fn lemma_bytes_unique(b: Seq<u8>, at: int, s1: Seq<u8>, s2: Seq<u8>)
    requires
        starts_at(b, at, encode_bytes(s1)),
        starts_at(b, at, encode_bytes(s2)),
        s1.len() < pow256(8),
        s2.len() < pow256(8),
    ensures
        s1 == s2,
{
    lemma_le_bytes_len(s1.len(), 8);
    lemma_le_bytes_len(s2.len(), 8);
    lemma_starts_at_concat(b, at, le_bytes(s1.len(), 8), s1);
    lemma_starts_at_concat(b, at, le_bytes(s2.len(), 8), s2);
    lemma_uint_unique(b, at, s1.len(), s2.len(), 8);
}

pub proof fn lemma_encode_bytes_len(s: Seq<u8>)
    ensures
        encode_bytes(s).len() == 8 + s.len(),
{
    lemma_le_bytes_len(s.len(), 8);
}

/// Where the encodings of the items of a list stand, there stand the
/// encodings of its first `k` items, and behind them the encoding of item
/// `k`.
pub proof fn lemma_items_prefix(b: Seq<u8>, at: int, l: Seq<Seq<u8>>, k: int)
    requires
        starts_at(b, at, encode_items(l)),
        0 <= k <= l.len(),
    ensures
        starts_at(b, at, encode_items(l.take(k))),
        k < l.len() ==> starts_at(b, at + encode_items(l.take(k)).len(), encode_bytes(l[k])),
    decreases l.len(),
{
    if k == l.len() {
        assert(l.take(k) =~= l);
    } else {
        let front = l.drop_last();
        lemma_starts_at_concat(b, at, encode_items(front), encode_bytes(l.last()));
        if k == l.len() - 1 {
            assert(l.take(k) =~= front);
        } else {
            lemma_items_prefix(b, at, front, k);
            assert(front.take(k) =~= l.take(k));
            assert(front[k] == l[k]);
        }
    }
}

/// At one offset stand the encodings of the items of at most one list of a
/// given length.
pub proof fn lemma_items_unique(b: Seq<u8>, at: int, l1: Seq<Seq<u8>>, l2: Seq<Seq<u8>>)
    requires
        starts_at(b, at, encode_items(l1)),
        starts_at(b, at, encode_items(l2)),
        l1.len() == l2.len(),
        forall|k: int| 0 <= k < l1.len() ==> (#[trigger] l1[k]).len() < pow256(8),
        forall|k: int| 0 <= k < l2.len() ==> (#[trigger] l2[k]).len() < pow256(8),
    ensures
        l1 == l2,
    decreases l1.len(),
{
    if l1.len() == 0 {
        assert(l1 =~= l2);
    } else {
        let f1 = l1.drop_last();
        let f2 = l2.drop_last();
        lemma_starts_at_concat(b, at, encode_items(f1), encode_bytes(l1.last()));
        lemma_starts_at_concat(b, at, encode_items(f2), encode_bytes(l2.last()));
        assert forall|k: int| 0 <= k < f1.len() implies (#[trigger] f1[k]).len() < pow256(8) by {
            assert(f1[k] == l1[k]);
        }
        assert forall|k: int| 0 <= k < f2.len() implies (#[trigger] f2[k]).len() < pow256(8) by {
            assert(f2[k] == l2[k]);
        }
        lemma_items_unique(b, at, f1, f2);
        lemma_bytes_unique(b, at + encode_items(f1).len(), l1.last(), l2.last());
        assert(l1 =~= f1.push(l1.last()));
        assert(l2 =~= f2.push(l2.last()));
    }
}

/// The offsets of the fields of an encoded deal.
pub open spec fn offset_sec(v: DealView) -> int {
    8 + v.session_id.len() as int
}

pub open spec fn offset_rnd(v: DealView) -> int {
    offset_sec(v) + 36
}

pub open spec fn offset_t(v: DealView) -> int {
    offset_rnd(v) + 36
}

pub open spec fn offset_list(v: DealView) -> int {
    offset_t(v) + 4
}

/// A byte string is the encoding of a deal exactly when each field's
/// encoding stands at its offset and the commitments end the string.
pub proof fn lemma_deal_layout(v: DealView, b: Seq<u8>)
    ensures
        encode_deal(v) == b <==> {
            &&& starts_at(b, 0, encode_bytes(v.session_id))
            &&& starts_at(b, offset_sec(v), le32(v.sec_index))
            &&& starts_at(b, offset_sec(v) + 4, le_bytes(v.sec_value, 32))
            &&& starts_at(b, offset_rnd(v), le32(v.rnd_index))
            &&& starts_at(b, offset_rnd(v) + 4, le_bytes(v.rnd_value, 32))
            &&& starts_at(b, offset_t(v), le32(v.t))
            &&& starts_at(b, offset_list(v), le_bytes(v.commitments.len(), 8))
            &&& starts_at(b, offset_list(v) + 8, encode_items(v.commitments))
            &&& b.len() == offset_list(v) + 8 + encode_items(v.commitments).len()
        },
{
    let p1 = encode_bytes(v.session_id);
    let p2 = encode_share(v.sec_index, v.sec_value);
    let p3 = encode_share(v.rnd_index, v.rnd_value);
    let p4 = le32(v.t);
    let p5 = encode_list(v.commitments);
    lemma_encode_bytes_len(v.session_id);
    lemma_le_bytes_len(v.sec_index as nat, 4);
    lemma_le_bytes_len(v.rnd_index as nat, 4);
    lemma_le_bytes_len(v.t as nat, 4);
    lemma_le_bytes_len(v.sec_value, 32);
    lemma_le_bytes_len(v.rnd_value, 32);
    lemma_le_bytes_len(v.commitments.len(), 8);
    lemma_starts_at_concat(b, 0, p1 + p2 + p3 + p4, p5);
    lemma_starts_at_concat(b, 0, p1 + p2 + p3, p4);
    lemma_starts_at_concat(b, 0, p1 + p2, p3);
    lemma_starts_at_concat(b, 0, p1, p2);
    lemma_starts_at_concat(b, offset_sec(v), le32(v.sec_index), le_bytes(v.sec_value, 32));
    lemma_starts_at_concat(b, offset_rnd(v), le32(v.rnd_index), le_bytes(v.rnd_value, 32));
    lemma_starts_at_concat(
        b,
        offset_list(v),
        le_bytes(v.commitments.len(), 8),
        encode_items(v.commitments),
    );
    let whole = encode_deal(v);
    if whole == b {
        assert(b.subrange(0, b.len() as int) =~= b);
    }
    if starts_at(b, 0, whole) && b.len() == whole.len() {
        assert(b.subrange(0, b.len() as int) =~= b);
    }
}

/// Two encodable deals with one encoding are equal.
pub proof fn lemma_encode_deal_injective(v1: DealView, v2: DealView)
    requires
        encodable(v1),
        encodable(v2),
        encode_deal(v1) == encode_deal(v2),
    ensures
        v1 == v2,
{
    let b = encode_deal(v1);
    lemma_deal_layout(v1, b);
    lemma_deal_layout(v2, b);
    lemma_pow256_values();
    lemma_bytes_unique(b, 0, v1.session_id, v2.session_id);
    lemma_uint_unique(b, offset_sec(v1), v1.sec_index as nat, v2.sec_index as nat, 4);
    lemma_scalar_width();
    lemma_uint_unique(b, offset_sec(v1) + 4, v1.sec_value, v2.sec_value, 32);
    lemma_uint_unique(b, offset_rnd(v1), v1.rnd_index as nat, v2.rnd_index as nat, 4);
    lemma_uint_unique(b, offset_rnd(v1) + 4, v1.rnd_value, v2.rnd_value, 32);
    lemma_uint_unique(b, offset_t(v1), v1.t as nat, v2.t as nat, 4);
    lemma_uint_unique(b, offset_list(v1), v1.commitments.len(), v2.commitments.len(), 8);
    lemma_items_unique(b, offset_list(v1) + 8, v1.commitments, v2.commitments);
}

/// Every number below the group order fits on 32 bytes.
pub proof fn lemma_scalar_width()
    ensures
        scalar_order() < pow256(32),
{
    reveal_with_fuel(pow256, 33);
    vstd::arithmetic::power2::lemma2_to64();
    vstd::arithmetic::power2::lemma_pow2_adds(63, 63);
    vstd::arithmetic::power2::lemma_pow2_adds(126, 126);
    vstd::arithmetic::power2::lemma_pow2_adds(252, 4);
    assert(pow256(32) == vstd::arithmetic::power2::pow2(256)) by {
        vstd::arithmetic::power2::lemma_pow2_adds(64, 64);
        vstd::arithmetic::power2::lemma_pow2_adds(128, 128);
        assert(pow256(8) == 0x1_0000_0000_0000_0000);
        lemma_pow256_adds(8, 8);
        lemma_pow256_adds(16, 16);
    }
}

pub proof fn lemma_pow256_adds(m: nat, n: nat)
    ensures
        pow256(m + n) == pow256(m) * pow256(n),
    decreases m,
{
    if m == 0 {
        assert(pow256(0) * pow256(n) == pow256(n)) by (nonlinear_arith)
            requires
                pow256(0) == 1,
        ;
    } else {
        lemma_pow256_adds((m - 1) as nat, n);
        assert(256 * (pow256((m - 1) as nat) * pow256(n)) == (256 * pow256((m - 1) as nat))
            * pow256(n)) by (nonlinear_arith);
    }
}

/// The bytes of `b` from `from` up to `to`.
fn copy_range(b: &[u8], from: usize, to: usize) -> (r: Vec<u8>)
    requires
        from <= to <= b.len(),
    ensures
        r@ == b@.subrange(from as int, to as int),
{
    let mut out: Vec<u8> = Vec::new();
    let mut k: usize = from;
    while k < to
        invariant
            from <= k <= to <= b.len(),
            out@ == b@.subrange(from as int, k as int),
        decreases to - k,
    {
        out.push(b[k]);
        assert(out@ =~= b@.subrange(from as int, k + 1));
        k += 1;
    }
    out
}

/// The number spelled by the `width` bytes at `at`, if that many bytes are
/// left.
fn take_uint(b: &[u8], at: usize, width: usize) -> (r: Option<u64>)
    requires
        width <= 8,
        at <= b.len(),
    ensures
        r is Some <==> at + width <= b.len(),
        r matches Some(x) ==> x < pow256(width as nat) && starts_at(
            b@,
            at as int,
            le_bytes(x as nat, width as nat),
        ),
{
    if b.len() - at < width {
        return None;
    }
    let x = read_le(b, at, width);
    proof {
        let sub = b@.subrange(at as int, at + width);
        lemma_le_nat_bound(sub);
        lemma_le_bytes_of_le_nat(sub);
    }
    Some(x)
}

/// The byte string encoded at `at` and the offset behind it, if one is
/// encoded there.
fn take_bytes(b: &[u8], at: usize) -> (r: Option<(Vec<u8>, usize)>)
    requires
        at <= b.len(),
    ensures
        r matches Some((s, next)) ==> starts_at(b@, at as int, encode_bytes(s@)) && next == at + 8
            + s@.len() && next <= b.len(),
        r is None ==> forall|s: Seq<u8>|
            s.len() < pow256(8) ==> !starts_at(b@, at as int, #[trigger] encode_bytes(s)),
{
    let n = match take_uint(b, at, 8) {
        Some(n) => n,
        None => {
            proof {
                assert forall|s: Seq<u8>| s.len() < pow256(8) implies !starts_at(
                    b@,
                    at as int,
                    #[trigger] encode_bytes(s),
                ) by {
                    lemma_encode_bytes_len(s);
                }
            }
            return None;
        },
    };
    let rest = b.len() - at - 8;
    if n > rest as u64 {
        proof {
            assert forall|s: Seq<u8>| s.len() < pow256(8) implies !starts_at(
                b@,
                at as int,
                #[trigger] encode_bytes(s),
            ) by {
                lemma_encode_bytes_len(s);
                if starts_at(b@, at as int, encode_bytes(s)) {
                    lemma_le_bytes_len(s.len(), 8);
                    lemma_starts_at_concat(b@, at as int, le_bytes(s.len(), 8), s);
                    lemma_uint_unique(b@, at as int, s.len(), n as nat, 8);
                }
            }
        }
        return None;
    }
    let s = copy_range(b, at + 8, at + 8 + n as usize);
    proof {
        lemma_le_bytes_len(n as nat, 8);
        lemma_starts_at_concat(b@, at as int, le_bytes(n as nat, 8), s@);
    }
    Some((s, at + 8 + n as usize))
}

/// The scalar encoded at `at`, if 32 canonical bytes stand there.
fn take_scalar(b: &[u8], at: usize) -> (r: Option<Scalar>)
    requires
        at <= b.len(),
    ensures
        r matches Some(s) ==> starts_at(b@, at as int, le_bytes(s@, 32)) && s.wf() && at + 32
            <= b.len(),
        r is None ==> forall|v: nat|
            v < scalar_order() ==> !starts_at(b@, at as int, #[trigger] le_bytes(v, 32)),
{
    if b.len() - at < 32 {
        proof {
            assert forall|v: nat| v < scalar_order() implies !starts_at(
                b@,
                at as int,
                #[trigger] le_bytes(v, 32),
            ) by {
                lemma_le_bytes_len(v, 32);
            }
        }
        return None;
    }
    let raw = copy_range(b, at, at + 32);
    let parsed = Scalar::from_bytes(raw.as_slice());
    proof {
        lemma_scalar_width();
        match parsed {
            Some(s) => {
                s.lemma_encoding();
            },
            None => {
                assert forall|v: nat| v < scalar_order() implies !starts_at(
                    b@,
                    at as int,
                    #[trigger] le_bytes(v, 32),
                ) by {
                    lemma_le_bytes_len(v, 32);
                    lemma_le_nat_of_le_bytes(v, 32);
                }
            },
        }
    }
    parsed
}

/// The encoding of a deal.
pub fn encode(d: &Deal) -> (r: Vec<u8>)
    ensures
        r@ == encode_deal(d@),
{
    let mut out: Vec<u8> = Vec::new();
    put_u64(&mut out, d.session_id.len() as u64);
    put_bytes(&mut out, d.session_id.as_slice());
    assert(out@ =~= encode_bytes(d@.session_id));
    put_u32(&mut out, d.sec_share.i);
    let sec = d.sec_share.v.to_bytes();
    put_bytes(&mut out, sec.as_slice());
    put_u32(&mut out, d.rnd_share.i);
    let rnd = d.rnd_share.v.to_bytes();
    put_bytes(&mut out, rnd.as_slice());
    put_u32(&mut out, d.t);
    proof {
        d.sec_share.v.lemma_encoding();
        d.rnd_share.v.lemma_encoding();
    }
    let ghost head = out@;
    assert(head =~= encode_bytes(d@.session_id) + encode_share(d@.sec_index, d@.sec_value)
        + encode_share(d@.rnd_index, d@.rnd_value) + le32(d@.t));
    put_u64(&mut out, d.commitments.len() as u64);
    let ghost start = out@;
    let mut k: usize = 0;
    assert(d@.commitments.take(0) =~= Seq::<Seq<u8>>::empty());
    assert(start + encode_items(Seq::<Seq<u8>>::empty()) =~= start);
    while k < d.commitments.len()
        invariant
            k <= d.commitments.len(),
            out@ == start + encode_items(d@.commitments.take(k as int)),
        decreases d.commitments.len() - k,
    {
        let ghost before = out@;
        put_u64(&mut out, d.commitments[k].len() as u64);
        put_bytes(&mut out, d.commitments[k].as_slice());
        proof {
            let next = d@.commitments.take(k + 1);
            assert(next.drop_last() =~= d@.commitments.take(k as int));
            assert(next.last() == d.commitments@[k as int]@);
            assert(out@ =~= start + encode_items(next));
        }
        k += 1;
    }
    assert(d@.commitments.take(d.commitments.len() as int) =~= d@.commitments);
    assert(out@ =~= head + encode_list(d@.commitments));
    out
}

/// The deal that a byte string encodes.
///
/// Succeeds exactly on the encodings of deals, and gives the deal encoded.
pub fn decode(b: &[u8]) -> (r: Option<Deal>)
    ensures
        r matches Some(d) ==> encode_deal(d@) == b@ && encodable(d@),
        r is None ==> forall|v: DealView| encodable(v) ==> #[trigger] encode_deal(v) != b@,
{
    proof {
        lemma_pow256_values();
        lemma_scalar_width();
    }
    let (session_id, at_sec) = match take_bytes(b, 0) {
        Some(p) => p,
        None => {
            proof {
                assert forall|v: DealView| encodable(v) implies #[trigger] encode_deal(v) != b@ by {
                    lemma_deal_layout(v, b@);
                }
            }
            return None;
        },
    };
    assert forall|v: DealView| encodable(v) && #[trigger] encode_deal(v) == b@ implies v.session_id
        == session_id@ by {
        lemma_deal_layout(v, b@);
        lemma_bytes_unique(b@, 0, v.session_id, session_id@);
    }
    let sec_i = match take_uint(b, at_sec, 4) {
        Some(x) => x as u32,
        None => {
            proof {
                assert forall|v: DealView| encodable(v) implies #[trigger] encode_deal(v) != b@ by {
                    lemma_deal_layout(v, b@);
                    lemma_le_bytes_len(v.sec_index as nat, 4);
                }
            }
            return None;
        },
    };
    assert forall|v: DealView| encodable(v) && #[trigger] encode_deal(v) == b@ implies v.sec_index
        == sec_i by {
        lemma_deal_layout(v, b@);
        lemma_uint_unique(b@, at_sec as int, v.sec_index as nat, sec_i as nat, 4);
    }
    let sec_v = match take_scalar(b, at_sec + 4) {
        Some(s) => s,
        None => {
            proof {
                assert forall|v: DealView| encodable(v) implies #[trigger] encode_deal(v) != b@ by {
                    lemma_deal_layout(v, b@);
                }
            }
            return None;
        },
    };
    proof {
        sec_v.lemma_wf();
    }
    assert forall|v: DealView| encodable(v) && #[trigger] encode_deal(v) == b@ implies v.sec_value
        == sec_v@ by {
        lemma_deal_layout(v, b@);
        lemma_uint_unique(b@, at_sec + 4, v.sec_value, sec_v@, 32);
    }
    let at_rnd = at_sec + 36;
    let rnd_i = match take_uint(b, at_rnd, 4) {
        Some(x) => x as u32,
        None => {
            proof {
                assert forall|v: DealView| encodable(v) implies #[trigger] encode_deal(v) != b@ by {
                    lemma_deal_layout(v, b@);
                    lemma_le_bytes_len(v.rnd_index as nat, 4);
                }
            }
            return None;
        },
    };
    assert forall|v: DealView| encodable(v) && #[trigger] encode_deal(v) == b@ implies v.rnd_index
        == rnd_i by {
        lemma_deal_layout(v, b@);
        lemma_uint_unique(b@, at_rnd as int, v.rnd_index as nat, rnd_i as nat, 4);
    }
    let rnd_v = match take_scalar(b, at_rnd + 4) {
        Some(s) => s,
        None => {
            proof {
                assert forall|v: DealView| encodable(v) implies #[trigger] encode_deal(v) != b@ by {
                    lemma_deal_layout(v, b@);
                }
            }
            return None;
        },
    };
    proof {
        rnd_v.lemma_wf();
    }
    assert forall|v: DealView| encodable(v) && #[trigger] encode_deal(v) == b@ implies v.rnd_value
        == rnd_v@ by {
        lemma_deal_layout(v, b@);
        lemma_uint_unique(b@, at_rnd + 4, v.rnd_value, rnd_v@, 32);
    }
    let at_t = at_rnd + 36;
    let t = match take_uint(b, at_t, 4) {
        Some(x) => x as u32,
        None => {
            proof {
                assert forall|v: DealView| encodable(v) implies #[trigger] encode_deal(v) != b@ by {
                    lemma_deal_layout(v, b@);
                    lemma_le_bytes_len(v.t as nat, 4);
                }
            }
            return None;
        },
    };
    assert forall|v: DealView| encodable(v) && #[trigger] encode_deal(v) == b@ implies v.t == t by {
        lemma_deal_layout(v, b@);
        lemma_uint_unique(b@, at_t as int, v.t as nat, t as nat, 4);
    }
    let at_list = at_t + 4;
    let count = match take_uint(b, at_list, 8) {
        Some(x) => x,
        None => {
            proof {
                assert forall|v: DealView| encodable(v) implies #[trigger] encode_deal(v) != b@ by {
                    lemma_deal_layout(v, b@);
                    lemma_le_bytes_len(v.commitments.len(), 8);
                }
            }
            return None;
        },
    };
    assert forall|v: DealView| encodable(v) && #[trigger] encode_deal(v) == b@ implies
        v.commitments.len() == count by {
        lemma_deal_layout(v, b@);
        lemma_uint_unique(b@, at_list as int, v.commitments.len(), count as nat, 8);
    }
    let start = at_list + 8;
    let mut commitments: Vec<Vec<u8>> = Vec::new();
    let mut at: usize = start;
    let mut k: u64 = 0;
    assert(views(commitments@) =~= Seq::<Seq<u8>>::empty());
    assert(b@.subrange(start as int, start as int) =~= Seq::<u8>::empty());
    while k < count
        invariant
            k <= count,
            start <= at <= b.len(),
            commitments@.len() == k,
            at == start + encode_items(views(commitments@)).len(),
            starts_at(b@, start as int, encode_items(views(commitments@))),
            forall|v: DealView|
                encodable(v) && #[trigger] encode_deal(v) == b@ ==> v.commitments.len() == count
                    && offset_list(v) + 8 == start,
            forall|j: int|
                0 <= j < k ==> (#[trigger] views(commitments@)[j]).len() < pow256(8),
        decreases count - k,
    {
        let ghost parsed = views(commitments@);
        let (item, next) = match take_bytes(b, at) {
            Some(p) => p,
            None => {
                proof {
                    assert forall|v: DealView| encodable(v) implies #[trigger] encode_deal(v)
                        != b@ by {
                        if encode_deal(v) == b@ {
                            lemma_deal_layout(v, b@);
                            lemma_items_prefix(b@, start as int, v.commitments, k as int);
                            let front = v.commitments.take(k as int);
                            assert forall|j: int| 0 <= j < front.len() implies (
                            #[trigger] front[j]).len() < pow256(8) by {
                                assert(front[j] == v.commitments[j]);
                            }
                            lemma_items_unique(b@, start as int, front, parsed);
                            assert(encode_bytes(v.commitments[k as int]).len() >= 0);
                        }
                    }
                }
                return None;
            },
        };
        commitments.push(item);
        proof {
            let grown = views(commitments@);
            lemma_pow256_values();
            assert(grown.drop_last() =~= parsed);
            assert(grown.last() == item@);
            lemma_encode_bytes_len(item@);
            lemma_starts_at_concat(b@, start as int, encode_items(parsed), encode_bytes(item@));
            assert forall|j: int| 0 <= j < k + 1 implies (#[trigger] grown[j]).len() < pow256(
                8,
            ) by {
                if j < k {
                    assert(grown[j] == parsed[j]);
                } else {
                    assert(grown[j] == item@);
                    assert(item@.len() <= usize::MAX);
                }
            }
        }
        at = next;
        k += 1;
    }
    let ghost parsed = views(commitments@);
    if at != b.len() {
        proof {
            assert forall|v: DealView| encodable(v) implies #[trigger] encode_deal(v) != b@ by {
                if encode_deal(v) == b@ {
                    lemma_deal_layout(v, b@);
                    lemma_items_unique(b@, start as int, v.commitments, parsed);
                }
            }
        }
        return None;
    }
    let d = Deal {
        session_id,
        sec_share: PriShare { i: sec_i, v: sec_v },
        rnd_share: PriShare { i: rnd_i, v: rnd_v },
        t,
        commitments,
    };
    proof {
        assert(d@.commitments =~= parsed);
        lemma_deal_layout(d@, b@);
        assert forall|j: int| 0 <= j < d@.commitments.len() implies (
        #[trigger] d@.commitments[j]).len() < pow256(8) by {
            assert(d@.commitments[j] == parsed[j]);
        }
    }
    Some(d)
}

} // verus!
