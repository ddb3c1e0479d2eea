//! Byte interleaving: spreading a codeword's bytes lane by lane so that local
//! damage hits bytes that lie far apart in the codeword.
use vstd::prelude::*;

use crate::wire::copy_range;

verus! {

/// How many of the indices `0..n` fall in lane `lane` (those equal to `lane`
/// modulo `s`).
pub open spec fn lane_count(n: nat, s: nat, lane: nat) -> nat {
    n / s + if lane < n % s {
        1nat
    } else {
        0nat
    }
}

/// Where lane `lane` starts in the interleaved output: the sizes of the lanes
/// before it, added up.
pub open spec fn lane_offset(n: nat, s: nat, lane: nat) -> nat {
    lane * (n / s) + if lane < n % s {
        lane
    } else {
        n % s
    }
}

/// The bytes of lane `lane`: `b[lane]`, `b[lane + s]`, `b[lane + 2s]`, ...
pub open spec fn lane_bytes(b: Seq<u8>, s: nat, lane: nat) -> Seq<u8> {
    Seq::new(lane_count(b.len(), s, lane), |j: int| b[(lane + j * s) as int])
}

/// The lanes `0..k` of `b`, one after the other.
pub open spec fn lanes_prefix(b: Seq<u8>, s: nat, k: nat) -> Seq<u8>
    decreases k,
{
    if k == 0 {
        Seq::empty()
    } else {
        lanes_prefix(b, s, (k - 1) as nat) + lane_bytes(b, s, (k - 1) as nat)
    }
}

/// `b` interleaved with stride `s`: every lane in turn, each lane in order.
/// A stride of 0 or 1, or no bytes, leaves `b` as it is.
pub open spec fn interleave_spec(b: Seq<u8>, s: nat) -> Seq<u8> {
    if s <= 1 || b.len() == 0 {
        b
    } else {
        lanes_prefix(b, s, s)
    }
}

/// The inverse placement: byte `i` of the result is the byte that interleaving
/// put at the position of index `i`.
pub open spec fn deinterleave_spec(b: Seq<u8>, s: nat) -> Seq<u8> {
    if s <= 1 || b.len() == 0 {
        b
    } else {
        Seq::new(
            b.len(),
            |i: int| b[lane_offset(b.len(), s, (i % (s as int)) as nat) + i / (s as int)],
        )
    }
}

proof fn lemma_offset_step(n: nat, s: nat, lane: nat)
    requires
        s > 0,
    ensures
        lane_offset(n, s, lane + 1) == lane_offset(n, s, lane) + lane_count(n, s, lane),
{
    let q = n / s;
    assert((lane + 1) * q == lane * q + q) by (nonlinear_arith);
}

proof fn lemma_offset_full(n: nat, s: nat)
    requires
        s > 0,
    ensures
        lane_offset(n, s, s) == n,
{
    vstd::arithmetic::div_mod::lemma_fundamental_div_mod(n as int, s as int);
    assert(s * (n / s) == (n / s) * s) by (nonlinear_arith);
}

proof fn lemma_offset_mono(n: nat, s: nat, a: nat, b: nat)
    requires
        s > 0,
        a <= b,
    ensures
        lane_offset(n, s, a) <= lane_offset(n, s, b),
{
    let q = n / s;
    assert(a * q <= b * q) by (nonlinear_arith)
        requires
            a <= b,
    ;
}

proof fn lemma_count_bound(n: nat, s: nat, lane: nat)
    requires
        s > 1,
    ensures
        n / s < n || n == 0,
        lane_count(n, s, lane) <= n,
{
    let q = n / s;
    let r = n % s;
    vstd::arithmetic::div_mod::lemma_fundamental_div_mod(n as int, s as int);
    assert(q <= s * q) by (nonlinear_arith)
        requires
            s > 1,
            q >= 0,
    ;
    assert(q < n || n == 0) by (nonlinear_arith)
        requires
            n == s * q + r,
            s > 1,
            q >= 0,
            r >= 0,
    ;
}

/// Position `lane + j * s` of a lane member: it lies below `n`, in lane `lane`,
/// as member `j`.
proof fn lemma_lane_member(n: nat, s: nat, lane: nat, j: nat)
    requires
        s > 0,
        lane < s,
        j < lane_count(n, s, lane),
    ensures
        lane + j * s < n,
        ((lane + j * s) as int) % (s as int) == lane,
        ((lane + j * s) as int) / (s as int) == j,
{
    let q = n / s;
    let r = n % s;
    vstd::arithmetic::div_mod::lemma_fundamental_div_mod(n as int, s as int);
    if lane < r {
        assert(j <= q);
        assert(lane + j * s < n) by (nonlinear_arith)
            requires
                j <= q,
                lane < r,
                n == s * q + r,
        ;
    } else {
        assert(j < q);
        assert(lane + j * s < n) by (nonlinear_arith)
            requires
                j + 1 <= q,
                lane < s,
                n == s * q + r,
        ;
    }
    vstd::arithmetic::div_mod::lemma_fundamental_div_mod_converse(
        (lane + j * s) as int,
        s as int,
        j as int,
        lane as int,
    );
}

/// Every index below `n` is member `i / s` of lane `i % s`.
proof fn lemma_index_lane(n: nat, s: nat, i: int)
    requires
        s > 0,
        0 <= i < n,
    ensures
        0 <= i % (s as int) < s,
        0 <= i / (s as int),
        (i / (s as int)) < lane_count(n, s, (i % (s as int)) as nat),
        i == (i % (s as int)) + (i / (s as int)) * s,
{
    let q = n / s;
    let r = n % s;
    let l = i % (s as int);
    let j = i / (s as int);
    vstd::arithmetic::div_mod::lemma_fundamental_div_mod(n as int, s as int);
    vstd::arithmetic::div_mod::lemma_fundamental_div_mod(i, s as int);
    assert(0 <= l < s);
    assert(j >= 0) by (nonlinear_arith)
        requires
            i == s * j + l,
            0 <= i,
            l < s,
            s > 0,
    ;
    if l < r {
        assert(j <= q) by (nonlinear_arith)
            requires
                s * j + l < s * q + r,
                0 <= l,
                r < s,
                s > 0,
        ;
    } else {
        assert(j < q) by (nonlinear_arith)
            requires
                s * j + l < s * q + r,
                l >= r,
                s > 0,
        ;
    }
    assert(i == l + j * s) by (nonlinear_arith)
        requires
            i == s * j + l,
    ;
}

/// The lanes `0..k` have the lengths of their offsets, and member `j` of lane
/// `lane < k` sits at `lane_offset(lane) + j`.
proof fn lemma_lanes_prefix(b: Seq<u8>, s: nat, k: nat)
    requires
        s > 0,
        k <= s,
    ensures
        lanes_prefix(b, s, k).len() == lane_offset(b.len(), s, k),
        forall|lane: nat, j: nat|
            lane < k && j < lane_count(b.len(), s, lane) ==> #[trigger] lanes_prefix(b, s, k)[(
            lane_offset(b.len(), s, lane) + j) as int] == b[(lane + j * s) as int],
    decreases k,
{
    let n = b.len();
    if k > 0 {
        let k1 = (k - 1) as nat;
        lemma_lanes_prefix(b, s, k1);
        lemma_offset_step(n, s, k1);
        let pre = lanes_prefix(b, s, k1);
        let cur = lanes_prefix(b, s, k);
        assert(cur == pre + lane_bytes(b, s, k1));
        assert forall|lane: nat, j: nat|
            lane < k && j < lane_count(n, s, lane) implies #[trigger] cur[(lane_offset(n, s, lane)
            + j) as int] == b[(lane + j * s) as int] by {
            if lane < k1 {
                lemma_offset_step(n, s, lane);
                lemma_offset_mono(n, s, lane + 1, k1);
                assert(cur[(lane_offset(n, s, lane) + j) as int] == pre[(lane_offset(n, s, lane)
                    + j) as int]);
            } else {
                assert(cur[(lane_offset(n, s, lane) + j) as int] == lane_bytes(b, s, k1)[j as int]);
            }
        }
    }
}

/// Interleaving keeps the number of bytes.
pub proof fn lemma_interleave_len(b: Seq<u8>, s: nat)
    ensures
        interleave_spec(b, s).len() == b.len(),
        deinterleave_spec(b, s).len() == b.len(),
{
    if s > 1 && b.len() > 0 {
        lemma_lanes_prefix(b, s, s);
        lemma_offset_full(b.len(), s);
    }
}

/// Deinterleaving undoes interleaving, for every stride.
pub proof fn lemma_deinterleave_interleave(b: Seq<u8>, s: nat)
    ensures
        deinterleave_spec(interleave_spec(b, s), s) == b,
{
    if s > 1 && b.len() > 0 {
        let n = b.len();
        let il = interleave_spec(b, s);
        lemma_lanes_prefix(b, s, s);
        lemma_offset_full(n, s);
        let d = deinterleave_spec(il, s);
        assert forall|i: int| 0 <= i < n implies d[i] == b[i] by {
            lemma_index_lane(n, s, i);
            let l = (i % (s as int)) as nat;
            let j = (i / (s as int)) as nat;
            assert(il[(lane_offset(n, s, l) + j) as int] == b[(l + j * s) as int]);
        }
        assert(d =~= b);
    }
}

/// Interleaving undoes deinterleaving, for every stride.
pub proof fn lemma_interleave_deinterleave(b: Seq<u8>, s: nat)
    ensures
        interleave_spec(deinterleave_spec(b, s), s) == b,
{
    if s > 1 && b.len() > 0 {
        let n = b.len();
        let d = deinterleave_spec(b, s);
        lemma_offset_full(n, s);
        lemma_prefix_of_deinterleaved(b, s, s);
        assert(b.subrange(0, n as int) =~= b);
    }
}

proof fn lemma_prefix_of_deinterleaved(b: Seq<u8>, s: nat, k: nat)
    requires
        s > 1,
        b.len() > 0,
        k <= s,
    ensures
        lanes_prefix(deinterleave_spec(b, s), s, k) == b.subrange(
            0,
            lane_offset(b.len(), s, k) as int,
        ),
    decreases k,
{
    let n = b.len();
    let d = deinterleave_spec(b, s);
    lemma_offset_full(n, s);
    lemma_offset_mono(n, s, k, s);
    if k > 0 {
        let k1 = (k - 1) as nat;
        lemma_prefix_of_deinterleaved(b, s, k1);
        lemma_offset_step(n, s, k1);
        lemma_offset_mono(n, s, k1, s);
        let lb = lane_bytes(d, s, k1);
        assert(d.len() == n);
        assert(lb.len() == lane_count(n, s, k1));
        assert forall|j: int| 0 <= j < lb.len() implies lb[j] == b[lane_offset(n, s, k1) + j] by {
            lemma_lane_member(n, s, k1, j as nat);
            let i = (k1 + j * s) as int;
            assert(lb[j] == d[i]);
            assert(d[i] == b[lane_offset(n, s, (i % (s as int)) as nat) + i / (s as int)]);
        }
        let pre = lanes_prefix(d, s, k1);
        assert(lanes_prefix(d, s, k) == pre + lb);
        assert(lanes_prefix(d, s, k) =~= b.subrange(0, lane_offset(n, s, k) as int));
    } else {
        assert(lane_offset(n, s, 0) == 0);
        assert(lanes_prefix(d, s, 0) =~= b.subrange(0, 0));
    }
}

/// Interleave bytes to distribute local damage across distant codewords.
pub fn interleave(bytes: &[u8], stride: usize) -> (r: Vec<u8>)
    ensures
        r@ == interleave_spec(bytes@, stride as nat),
{
    let n = bytes.len();
    if stride <= 1 || n == 0 {
        return copy_range(bytes, 0, n);
    }
    let ghost b = bytes@;
    let mut out: Vec<u8> = Vec::new();
    let mut lane: usize = 0;
    while lane < stride
        invariant
            b == bytes@,
            n == b.len(),
            stride > 1,
            lane <= stride,
            out@ == lanes_prefix(b, stride as nat, lane as nat),
        decreases stride - lane,
    {
        proof {
            lemma_count_bound(n as nat, stride as nat, lane as nat);
        }
        let count = n / stride + if lane < n % stride {
            1usize
        } else {
            0usize
        };
        assert(count == lane_count(n as nat, stride as nat, lane as nat));
        let ghost before = out@;
        let mut j: usize = 0;
        while j < count
            invariant
                b == bytes@,
                n == b.len(),
                stride > 1,
                lane < stride,
                count == lane_count(n as nat, stride as nat, lane as nat),
                j <= count,
                out@ == before + lane_bytes(b, stride as nat, lane as nat).take(j as int),
            decreases count - j,
        {
            proof {
                lemma_lane_member(n as nat, stride as nat, lane as nat, j as nat);
            }
            let index = lane + j * stride;
            out.push(bytes[index]);
            assert(out@ =~= before + lane_bytes(b, stride as nat, lane as nat).take(j + 1));
            j = j + 1;
        }
        assert(lane_bytes(b, stride as nat, lane as nat).take(count as int) =~= lane_bytes(
            b,
            stride as nat,
            lane as nat,
        ));
        lane = lane + 1;
    }
    out
}

/// Reverse [`interleave`].
pub fn deinterleave(bytes: &[u8], stride: usize) -> (r: Vec<u8>)
    ensures
        r@ == deinterleave_spec(bytes@, stride as nat),
{
    let n = bytes.len();
    if stride <= 1 || n == 0 {
        return copy_range(bytes, 0, n);
    }
    let ghost b = bytes@;
    let ghost s = stride as nat;
    let mut out: Vec<u8> = Vec::new();
    let mut k: usize = 0;
    while k < n
        invariant
            k <= n,
            out@.len() == k,
        decreases n - k,
    {
        out.push(0u8);
        k = k + 1;
    }
    proof {
        lemma_offset_full(n as nat, s);
    }
    let mut source: usize = 0;
    let mut lane: usize = 0;
    while lane < stride
        invariant
            b == bytes@,
            n == b.len(),
            s == stride,
            stride > 1,
            lane <= stride,
            out@.len() == n,
            source == lane_offset(n as nat, s, lane as nat),
            lane_offset(n as nat, s, s) == n,
            forall|i: int|
                0 <= i < n && i % (s as int) < lane ==> #[trigger] out@[i] == b[lane_offset(
                    n as nat,
                    s,
                    (i % (s as int)) as nat,
                ) + i / (s as int)],
        decreases stride - lane,
    {
        proof {
            lemma_count_bound(n as nat, stride as nat, lane as nat);
        }
        let count = n / stride + if lane < n % stride {
            1usize
        } else {
            0usize
        };
        proof {
            lemma_offset_step(n as nat, s, lane as nat);
            lemma_offset_mono(n as nat, s, (lane + 1) as nat, s);
        }
        let mut j: usize = 0;
        while j < count
            invariant
                b == bytes@,
                n == b.len(),
                s == stride,
                stride > 1,
                lane < stride,
                count == lane_count(n as nat, s, lane as nat),
                j <= count,
                out@.len() == n,
                source == lane_offset(n as nat, s, lane as nat) + j,
                lane_offset(n as nat, s, lane as nat) + count <= n,
                forall|i: int|
                    0 <= i < n && i % (s as int) < lane ==> #[trigger] out@[i] == b[lane_offset(
                        n as nat,
                        s,
                        (i % (s as int)) as nat,
                    ) + i / (s as int)],
                forall|i: int|
                    0 <= i < n && i % (s as int) == lane && i / (s as int) < j ==> #[trigger] out@[i]
                        == b[lane_offset(n as nat, s, lane as nat) + i / (s as int)],
            decreases count - j,
        {
            proof {
                lemma_lane_member(n as nat, s, lane as nat, j as nat);
            }
            let index = lane + j * stride;
            let ghost old_out = out@;
            out.set(index, bytes[source]);
            assert forall|i: int|
                0 <= i < n && i % (s as int) < lane implies #[trigger] out@[i] == b[lane_offset(
                n as nat,
                s,
                (i % (s as int)) as nat,
            ) + i / (s as int)] by {
                assert(i != index);
                assert(out@[i] == old_out[i]);
            }
            assert forall|i: int|
                0 <= i < n && i % (s as int) == lane && i / (s as int) < j + 1 implies #[trigger] out@[i]
                == b[lane_offset(n as nat, s, lane as nat) + i / (s as int)] by {
                lemma_index_lane(n as nat, s, i);
                if i / (s as int) == j {
                    assert(i == index);
                } else {
                    assert(out@[i] == old_out[i]);
                }
            }
            source = source + 1;
            j = j + 1;
        }
        assert forall|i: int|
            0 <= i < n && i % (s as int) < lane + 1 implies #[trigger] out@[i] == b[lane_offset(
            n as nat,
            s,
            (i % (s as int)) as nat,
        ) + i / (s as int)] by {
            lemma_index_lane(n as nat, s, i);
        }
        lane = lane + 1;
    }
    assert forall|i: int| 0 <= i < n implies out@[i] == deinterleave_spec(b, s)[i] by {
        lemma_index_lane(n as nat, s, i);
    }
    assert(out@ =~= deinterleave_spec(b, s));
    out
}

} // verus!
