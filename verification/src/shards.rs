//! Fixed-size XOR erasure recovery over equal-length shards.
use vstd::prelude::*;

use crate::ecc::{ceil_div, EccError};

verus! {

/// The contents of shard vectors.
pub open spec fn shard_views(shards: Seq<Vec<u8>>) -> Seq<Seq<u8>> {
    shards.map_values(|v: Vec<u8>| v@)
}

/// The shard length for `len` bytes over `k` data shards: the bytes split evenly,
/// rounded up, and at least one.
pub open spec fn shard_len_for(len: nat, k: nat) -> nat {
    let c = ceil_div(len, k);
    if c < 1 {
        1
    } else {
        c
    }
}

/// Data shard `s` of length `l`: its slice of `data`, zero-padded past the end.
pub open spec fn data_shard(data: Seq<u8>, l: nat, s: nat) -> Seq<u8> {
    Seq::new(l, |o: int| if s * l + o < data.len() { data[s * l + o] } else { 0u8 })
}

/// The XOR of byte `o` of the shards `0..n`, leaving out shard `skip` and shards
/// too short to have byte `o`.
pub open spec fn xor_column(shards: Seq<Seq<u8>>, skip: int, o: int, n: nat) -> u8
    decreases n,
{
    if n == 0 {
        0u8
    } else {
        let prev = xor_column(shards, skip, o, (n - 1) as nat);
        if n - 1 != skip && o < shards[n - 1].len() {
            prev ^ shards[n - 1][o]
        } else {
            prev
        }
    }
}

/// The `k` data shards of `data`.
pub open spec fn data_shards_of(data: Seq<u8>, k: nat) -> Seq<Seq<u8>> {
    let l = shard_len_for(data.len(), k);
    Seq::new(k, |s: int| data_shard(data, l, s as nat))
}

/// The `k` data shards of `data` followed by their XOR parity shard.
pub open spec fn encoded_shards(data: Seq<u8>, k: nat) -> Seq<Seq<u8>> {
    let l = shard_len_for(data.len(), k);
    let ds = data_shards_of(data, k);
    ds.push(Seq::new(l, |o: int| xor_column(ds, -1, o, k)))
}

/// The shards `0..n`, one after the other.
pub open spec fn concat_shards(shards: Seq<Seq<u8>>, n: nat) -> Seq<u8>
    decreases n,
{
    if n == 0 {
        Seq::empty()
    } else {
        concat_shards(shards, (n - 1) as nat) + shards[n - 1]
    }
}

/// Encoded equal-size shards.
#[derive(Debug, Clone, PartialEq, Eq)]
pub struct ShardSet {
    /// Original byte length before padding.
    pub original_len: usize,
    /// Number of data shards.
    pub data_shards: usize,
    /// Bytes in each shard after padding.
    pub shard_len: usize,
    /// Data shards followed by one parity shard.
    pub shards: Vec<Vec<u8>>,
}

/// What [`ShardSet::reassemble`] returns: the first `data_shards` shards joined,
/// cut to the original length.
pub open spec fn reassemble_spec(set: ShardSet) -> Seq<u8> {
    let views = shard_views(set.shards@);
    let n = if set.data_shards < views.len() {
        set.data_shards as nat
    } else {
        views.len()
    };
    let joined = concat_shards(views, n);
    if set.original_len < joined.len() {
        joined.take(set.original_len as int)
    } else {
        joined
    }
}

impl ShardSet {
    /// Reassemble data shards into the original byte string.
    pub fn reassemble(&self) -> (r: Vec<u8>)
        ensures
            r@ == reassemble_spec(*self),
    {
        let ghost views = shard_views(self.shards@);
        let n = if self.data_shards < self.shards.len() {
            self.data_shards
        } else {
            self.shards.len()
        };
        let mut bytes: Vec<u8> = Vec::new();
        let mut s: usize = 0;
        while s < n
            invariant
                n <= self.shards@.len(),
                views == shard_views(self.shards@),
                s <= n,
                bytes@ == concat_shards(views, s as nat),
            decreases n - s,
        {
            let shard = &self.shards[s];
            let mut o: usize = 0;
            let ghost before = bytes@;
            while o < shard.len()
                invariant
                    o <= shard@.len(),
                    bytes@ == before + shard@.take(o as int),
                decreases shard@.len() - o,
            {
                bytes.push(shard[o]);
                assert(bytes@ =~= before + shard@.take(o + 1));
                o = o + 1;
            }
            assert(shard@.take(shard@.len() as int) =~= shard@);
            assert(views[s as int] == shard@);
            s = s + 1;
        }
        bytes.truncate(self.original_len);
        bytes
    }
}

/// Fixed-size XOR erasure recovery over equal-length shards.
#[derive(Debug, Clone, Copy, PartialEq, Eq)]
pub struct XorShardCode {
    data_shards: usize,
}

impl View for XorShardCode {
    type V = nat;

    /// The number of data shards.
    closed spec fn view(&self) -> nat {
        self.data_shards as nat
    }
}

proof fn lemma_shard_len_fits(len: nat, k: nat)
    requires
        k > 0,
    ensures
        k * shard_len_for(len, k) <= len + k,
        len <= k * shard_len_for(len, k),
        shard_len_for(len, k) <= len + 1,
{
    let q = len / k;
    let r = len % k;
    vstd::arithmetic::div_mod::lemma_fundamental_div_mod(len as int, k as int);
    let l = shard_len_for(len, k);
    if r == 0 {
        assert(k * q == len) by (nonlinear_arith)
            requires
                len == k * q + r,
                r == 0,
        ;
        if q < 1 {
            assert(len == 0) by (nonlinear_arith)
                requires
                    len == k * q,
                    q < 1,
                    q >= 0,
            ;
        }
        assert(q <= len) by (nonlinear_arith)
            requires
                len == k * q,
                k > 0,
                q >= 0,
        ;
    } else {
        assert(k * (q + 1) == k * q + k) by (nonlinear_arith);
        assert(q <= len) by (nonlinear_arith)
            requires
                len == k * q + r,
                k > 0,
                q >= 0,
                r >= 0,
        ;
    }
}

impl XorShardCode {
    /// Create an XOR shard code for `data_shards` data shards plus one parity shard.
    pub fn new(data_shards: usize) -> (r: Self)
        ensures
            r@ == data_shards,
    {
        XorShardCode { data_shards }
    }

    /// Split bytes into equal-size data shards and append one parity shard.
    pub fn encode_shards(self, data: &[u8]) -> (r: Result<ShardSet, EccError>)
        requires
            data@.len() + self@ < usize::MAX,
        ensures
            self@ == 0 ==> r == Err::<ShardSet, EccError>(EccError::InvalidShardConfiguration),
            self@ > 0 ==> match r {
                Ok(set) => {
                    &&& set.original_len == data@.len()
                    &&& set.data_shards == self@
                    &&& set.shard_len == shard_len_for(data@.len(), self@)
                    &&& shard_views(set.shards@) == encoded_shards(data@, self@)
                },
                Err(_) => false,
            },
    {
        let k = self.data_shards;
        if k == 0 {
            return Err(EccError::InvalidShardConfiguration);
        }
        let len = data.len();
        let q = len / k;
        let c = if len % k == 0 {
            q
        } else {
            q + 1
        };
        let shard_len = if c < 1 {
            1
        } else {
            c
        };
        let ghost l = shard_len as nat;
        proof {
            lemma_shard_len_fits(len as nat, k as nat);
            assert(l == shard_len_for(len as nat, k as nat));
        }
        let ghost ds = data_shards_of(data@, k as nat);
        let mut shards: Vec<Vec<u8>> = Vec::new();
        let mut s: usize = 0;
        let mut pos: usize = 0;
        while s < k
            invariant
                k == self@,
                k > 0,
                l == shard_len,
                l == shard_len_for(len as nat, k as nat),
                len == data@.len(),
                k * l <= len + k,
                len + k < usize::MAX,
                ds == data_shards_of(data@, k as nat),
                s <= k,
                pos == s * l,
                shards@.len() == s,
                shard_views(shards@) == ds.take(s as int),
            decreases k - s,
        {
            let mut shard: Vec<u8> = Vec::new();
            let mut o: usize = 0;
            proof {
                assert(s * l + l <= k * l) by (nonlinear_arith)
                    requires
                        s < k,
                ;
            }
            while o < shard_len
                invariant
                    l == shard_len,
                    len == data@.len(),
                    o <= l,
                    pos == s * l + o,
                    s * l + l <= len + k,
                    len + k < usize::MAX,
                    shard@ == data_shard(data@, l, s as nat).take(o as int),
                decreases l - o,
            {
                let byte = if pos < len {
                    data[pos]
                } else {
                    0u8
                };
                shard.push(byte);
                assert(shard@ =~= data_shard(data@, l, s as nat).take(o + 1));
                pos = pos + 1;
                o = o + 1;
            }
            assert(shard@ =~= data_shard(data@, l, s as nat));
            assert(ds[s as int] == data_shard(data@, l, s as nat));
            let ghost before = shards@;
            let ghost sv = shard@;
            shards.push(shard);
            proof {
                assert(shards@ == before.push(shards@[s as int]));
                assert(shards@[s as int]@ == sv);
                assert forall|j: int| 0 <= j < s + 1 implies shard_views(shards@)[j] == ds.take(
                    s + 1,
                )[j] by {
                    if j < s {
                        assert(shard_views(before)[j] == ds.take(s as int)[j]);
                    }
                }
                assert(shard_views(shards@) =~= ds.take(s + 1));
                assert((s + 1) * l == s * l + l) by (nonlinear_arith);
            }
            s = s + 1;
        }
        assert(ds.take(k as int) =~= ds);
        let mut parity: Vec<u8> = Vec::new();
        let mut o: usize = 0;
        while o < shard_len
            invariant
                k == self@,
                l == shard_len,
                l == shard_len_for(data@.len(), k as nat),
                ds == data_shards_of(data@, k as nat),
                shard_views(shards@) == ds,
                shards@.len() == k,
                o <= l,
                parity@ == Seq::new(l, |c: int| xor_column(ds, -1, c, k as nat)).take(o as int),
            decreases l - o,
        {
            let mut acc: u8 = 0;
            let mut t: usize = 0;
            while t < k
                invariant
                    k == self@,
                    l == shard_len,
                    l == shard_len_for(data@.len(), k as nat),
                    ds == data_shards_of(data@, k as nat),
                    shard_views(shards@) == ds,
                    shards@.len() == k,
                    o < l,
                    t <= k,
                    acc == xor_column(ds, -1, o as int, t as nat),
                decreases k - t,
            {
                assert(shard_views(shards@)[t as int] == shards@[t as int]@);
                assert(shards@[t as int]@ == ds[t as int]);
                assert(ds[t as int].len() == l);
                acc = acc ^ shards[t][o];
                t = t + 1;
            }
            parity.push(acc);
            assert(parity@ =~= Seq::new(l, |c: int| xor_column(ds, -1, c, k as nat)).take(o + 1));
            o = o + 1;
        }
        assert(parity@ =~= Seq::new(l, |c: int| xor_column(ds, -1, c, k as nat)));
        let ghost before = shards@;
        let ghost pv = parity@;
        shards.push(parity);
        proof {
            assert(shards@[k as int]@ == pv);
            assert forall|j: int| 0 <= j < k implies shard_views(shards@)[j] == ds[j] by {
                assert(shard_views(before)[j] == ds[j]);
            }
            assert(shard_views(shards@) =~= encoded_shards(data@, k as nat));
        }
        Ok(ShardSet { original_len: len, data_shards: k, shard_len, shards })
    }

    /// Recover exactly one missing shard from an XOR shard set.
    pub fn recover_one(self, set: &ShardSet, missing_index: usize) -> (r: Result<Vec<u8>, EccError>)
        requires
            set.data_shards == self@ && missing_index < set.shards@.len() ==> forall|i: int|
                0 <= i < set.shards@.len() && i != missing_index ==> set.shards@[i]@.len()
                    <= set.shard_len,
        ensures
            set.data_shards != self@ || missing_index >= set.shards@.len() ==> r == Err::<
                Vec<u8>,
                EccError,
            >(EccError::InvalidShardConfiguration),
            set.data_shards == self@ && missing_index < set.shards@.len() ==> match r {
                Ok(v) => v@ == Seq::new(
                    set.shard_len as nat,
                    |o: int|
                        xor_column(
                            shard_views(set.shards@),
                            missing_index as int,
                            o,
                            set.shards@.len(),
                        ),
                ),
                Err(_) => false,
            },
    {
        if set.data_shards != self.data_shards || missing_index >= set.shards.len() {
            return Err(EccError::InvalidShardConfiguration);
        }
        let ghost views = shard_views(set.shards@);
        let n = set.shards.len();
        let l = set.shard_len;
        let mut recovered: Vec<u8> = Vec::new();
        let mut k: usize = 0;
        while k < l
            invariant
                k <= l,
                recovered@ == Seq::new(k as nat, |o: int| 0u8),
            decreases l - k,
        {
            recovered.push(0u8);
            assert(recovered@ =~= Seq::new((k + 1) as nat, |o: int| 0u8));
            k = k + 1;
        }
        assert(recovered@ =~= Seq::new(l as nat, |o: int| xor_column(views, missing_index as int, o, 0)));
        let mut i: usize = 0;
        while i < n
            invariant
                n == set.shards@.len(),
                l == set.shard_len,
                missing_index < n,
                views == shard_views(set.shards@),
                forall|j: int| 0 <= j < n && j != missing_index ==> set.shards@[j]@.len() <= l,
                i <= n,
                recovered@ == Seq::new(
                    l as nat,
                    |o: int| xor_column(views, missing_index as int, o, i as nat),
                ),
            decreases n - i,
        {
            if i != missing_index {
                let shard = &set.shards[i];
                assert(views[i as int] == shard@);
                let mut o: usize = 0;
                while o < shard.len()
                    invariant
                        shard@.len() <= l,
                        views[i as int] == shard@,
                        i != missing_index,
                        o <= shard@.len(),
                        recovered@.len() == l,
                        forall|c: int|
                            0 <= c < l ==> #[trigger] recovered@[c] == if c < o {
                                xor_column(views, missing_index as int, c, (i + 1) as nat)
                            } else {
                                xor_column(views, missing_index as int, c, i as nat)
                            },
                    decreases shard@.len() - o,
                {
                    let x = recovered[o] ^ shard[o];
                    recovered.set(o, x);
                    o = o + 1;
                }
                assert(recovered@ =~= Seq::new(
                    l as nat,
                    |o: int| xor_column(views, missing_index as int, o, (i + 1) as nat),
                ));
            } else {
                assert(recovered@ =~= Seq::new(
                    l as nat,
                    |o: int| xor_column(views, missing_index as int, o, (i + 1) as nat),
                ));
            }
            i = i + 1;
        }
        Ok(recovered)
    }
}

proof fn lemma_xor_swap(a: u8, b: u8, c: u8)
    ensures
        (a ^ b) ^ c == (a ^ c) ^ b,
        (a ^ b) ^ b == a,
        a ^ 0 == a,
        a ^ a == 0,
{
    assert((a ^ b) ^ c == (a ^ c) ^ b) by (bit_vector);
    assert((a ^ b) ^ b == a) by (bit_vector);
    assert(a ^ 0 == a) by (bit_vector);
    assert(a ^ a == 0) by (bit_vector);
}

proof fn lemma_xor_cancel(y: u8, b: u8)
    ensures
        y ^ (y ^ b) == b,
{
    assert(y ^ (y ^ b) == b) by (bit_vector);
}

/// Leaving shard `m` out of the XOR of the first `n` shards takes its byte back
/// out, when every shard has byte `o`.
proof fn lemma_xor_skip(shards: Seq<Seq<u8>>, m: int, o: int, n: nat)
    requires
        n <= shards.len(),
        forall|i: int| 0 <= i < n ==> o < #[trigger] shards[i].len(),
        0 <= o,
        0 <= m,
    ensures
        xor_column(shards, -1, o, n) == if m < n {
            xor_column(shards, m, o, n) ^ shards[m][o]
        } else {
            xor_column(shards, m, o, n)
        },
    decreases n,
{
    if n > 0 {
        let n1 = (n - 1) as nat;
        lemma_xor_skip(shards, m, o, n1);
        let x = xor_column(shards, -1, o, n1);
        let y = xor_column(shards, m, o, n1);
        let b = shards[n1 as int][o];
        if m < n1 {
            lemma_xor_swap(y, shards[m][o], b);
        } else if m == n1 {
        } else {
        }
    }
}

/// The XOR of byte `o` over the first `n` shards only looks at those shards.
proof fn lemma_xor_prefix(a: Seq<Seq<u8>>, b: Seq<Seq<u8>>, skip: int, o: int, n: nat)
    requires
        n <= a.len(),
        n <= b.len(),
        forall|i: int| 0 <= i < n ==> a[i] == b[i],
    ensures
        xor_column(a, skip, o, n) == xor_column(b, skip, o, n),
    decreases n,
{
    if n > 0 {
        lemma_xor_prefix(a, b, skip, o, (n - 1) as nat);
    }
}

/// In a set of shards built by [`XorShardCode::encode_shards`], the XOR of all
/// other shards gives back any one shard, data or parity.
pub proof fn lemma_xor_recovers_shard(data: Seq<u8>, k: nat, m: nat)
    requires
        k > 0,
        m <= k,
    ensures
        Seq::new(
            shard_len_for(data.len(), k),
            |o: int| xor_column(encoded_shards(data, k), m as int, o, k + 1),
        ) == encoded_shards(data, k)[m as int],
{
    let l = shard_len_for(data.len(), k);
    let ds = data_shards_of(data, k);
    let all = encoded_shards(data, k);
    let rec = Seq::new(l, |o: int| xor_column(all, m as int, o, k + 1));
    assert forall|o: int| 0 <= o < l implies rec[o] == all[m as int][o] by {
        assert forall|i: int| 0 <= i < k implies o < #[trigger] all[i].len() by {
            assert(all[i] == ds[i]);
        }
        lemma_xor_prefix(all, ds, -1, o, k);
        lemma_xor_prefix(all, ds, m as int, o, k);
        lemma_xor_skip(all, m as int, o, k);
        let x = xor_column(all, -1, o, k);
        let y = xor_column(all, m as int, o, k);
        assert(all[k as int][o] == x);
        if m < k {
            assert(rec[o] == y ^ x);
            lemma_xor_cancel(y, all[m as int][o]);
        } else {
            assert(rec[o] == y);
        }
    }
    assert(rec =~= all[m as int]);
}

proof fn lemma_concat_data_shards(data: Seq<u8>, k: nat, n: nat)
    requires
        k > 0,
        n <= k,
    ensures
        concat_shards(data_shards_of(data, k), n) == Seq::new(
            n * shard_len_for(data.len(), k),
            |i: int| if i < data.len() { data[i] } else { 0u8 },
        ),
    decreases n,
{
    let l = shard_len_for(data.len(), k);
    let ds = data_shards_of(data, k);
    if n == 0 {
        assert(concat_shards(ds, 0) =~= Seq::new(0 * l, |i: int| if i < data.len() { data[i] } else { 0u8 }));
    } else {
        let n1 = (n - 1) as nat;
        lemma_concat_data_shards(data, k, n1);
        assert(n1 * l + l == n * l) by (nonlinear_arith)
            requires
                n1 + 1 == n,
        ;
        let lhs = concat_shards(ds, n);
        let rhs = Seq::new(n * l, |i: int| if i < data.len() { data[i] } else { 0u8 });
        assert(lhs == concat_shards(ds, n1) + ds[n1 as int]);
        assert forall|i: int| 0 <= i < n * l implies lhs[i] == rhs[i] by {
            if i >= n1 * l {
                let o = i - n1 * l;
                assert(ds[n1 as int][o] == data_shard(data, l, n1)[o]);
            }
        }
        assert(lhs =~= rhs);
    }
}

/// Reassembling a shard set built by [`XorShardCode::encode_shards`] gives back
/// the bytes it was built from.
pub proof fn lemma_reassemble_encoded(data: Seq<u8>, k: nat, set: ShardSet)
    requires
        k > 0,
        set.original_len == data.len(),
        set.data_shards == k,
        shard_views(set.shards@) == encoded_shards(data, k),
    ensures
        reassemble_spec(set) == data,
{
    let l = shard_len_for(data.len(), k);
    let ds = data_shards_of(data, k);
    let views = shard_views(set.shards@);
    lemma_shard_len_fits(data.len(), k);
    lemma_concat_data_shards(data, k, k);
    assert forall|i: int| 0 <= i < k implies views[i] == ds[i] by {}
    lemma_concat_prefix(views, ds, k);
    let joined = concat_shards(views, k);
    assert(joined.take(data.len() as int) =~= data);
}

proof fn lemma_concat_prefix(a: Seq<Seq<u8>>, b: Seq<Seq<u8>>, n: nat)
    requires
        n <= a.len(),
        n <= b.len(),
        forall|i: int| 0 <= i < n ==> a[i] == b[i],
    ensures
        concat_shards(a, n) == concat_shards(b, n),
    decreases n,
{
    if n > 0 {
        lemma_concat_prefix(a, b, (n - 1) as nat);
    }
}

} // verus!
