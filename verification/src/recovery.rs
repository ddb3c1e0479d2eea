//! ECC repair of a damaged codeword: Reed-Solomon erasure search for print
//! frames, parity-tail rebuild and single-byte search for parity frames.
//!
//! Every search visits its candidates in a fixed order, counts each one as an
//! attempt, stops at the first candidate that both passes the code and decodes
//! as a frame, and gives up once the attempt budget is spent.
use vstd::prelude::*;

use crate::ecc::{
    from_encoded_layout, from_layout, interleave_stride_for_mode, lemma_layout_roundtrip,
    parity_len_for, parity_of, parity_verify_spec, rs_recover_spec, rs_shards_for,
    rs_supported_spec, rs_verify_spec, stride_spec, to_encoded_layout, to_layout,
    verify_for_mode_spec, BlockCode, ParityCode, ReedSolomonCode, scheme_spec, EccScheme,
};
use crate::frame::{parse_frame, Frame, FrameHeader};
use crate::error::GlyphError;
use crate::mode::{EccLevel, TransmissionMode};
use crate::wire::{copy_range, push_all};

verus! {

/// Recovery strategy used by ECC repair.
#[derive(Debug, Clone, Copy, PartialEq, Eq, Structural)]
pub enum RecoveryMethod {
    /// No repair strategy was applied.
    NoRepair,
    /// Reed-Solomon single-byte erasure reconstruction.
    ReedSolomonSingle,
    /// Reed-Solomon two-byte erasure reconstruction.
    ReedSolomonPair,
    /// Rebuilt parity tail from data bytes.
    ParityTailRebuild,
    /// Brute-force parity-guided data-byte mutation.
    ParityByteSearch,
}

/// Recovery telemetry emitted by ECC repair paths.
#[derive(Debug, Clone, Copy, PartialEq, Eq, Structural)]
pub struct RecoveryTelemetry {
    /// Whether ECC recovery logic was attempted.
    pub attempted: bool,
    /// Whether recovery succeeded and produced a valid frame.
    pub recovered: bool,
    /// Number of candidate mutations/reconstructions evaluated.
    pub attempts: usize,
    /// Recovery strategy used by the successful candidate.
    pub method: RecoveryMethod,
    /// Number of suspect byte indexes provided by caller.
    pub suspect_count: usize,
    /// Whether recovery stopped because `max_attempts` was exceeded.
    pub max_attempts_exceeded: bool,
}

/// The first candidate from `t` on that passes, provided it is reached within
/// `max` attempts (candidate `t` is attempt `t + 1`).
pub open spec fn first_pass(passes: Seq<bool>, max: nat, t: nat) -> Option<nat>
    decreases passes.len() - t,
{
    if t >= passes.len() || t + 1 > max {
        None
    } else if passes[t as int] {
        Some(t)
    } else {
        first_pass(passes, max, t + 1)
    }
}

/// Whether a search over `passes` runs out of budget before it finds a candidate.
pub open spec fn scan_exceeded(passes: Seq<bool>, max: nat) -> bool {
    first_pass(passes, max, 0) is None && passes.len() > max
}

/// The attempt count a search over `passes` reports: the found candidate's
/// attempt, one past the budget when it runs out (held at `usize::MAX`), or all
/// candidates.
pub open spec fn scan_attempts(passes: Seq<bool>, max: nat) -> nat {
    match first_pass(passes, max, 0) {
        Some(t) => t + 1,
        None => if passes.len() > max {
            if max < usize::MAX {
                max + 1
            } else {
                max
            }
        } else {
            passes.len()
        },
    }
}

/// The suspects that lie in the data region, in the order given.
pub open spec fn kept_suspects(suspects: Seq<usize>, data_len: nat) -> Seq<usize>
    decreases suspects.len(),
{
    if suspects.len() == 0 {
        Seq::empty()
    } else {
        let prev = kept_suspects(suspects.drop_last(), data_len);
        if (suspects.last() as nat) < data_len {
            prev.push(suspects.last())
        } else {
            prev
        }
    }
}

/// The indexes below `n` that are not in `kept`, ascending.
pub open spec fn untried(kept: Seq<usize>, n: nat) -> Seq<usize>
    decreases n,
{
    if n == 0 {
        Seq::empty()
    } else {
        let prev = untried(kept, (n - 1) as nat);
        if kept.contains((n - 1) as usize) {
            prev
        } else {
            prev.push((n - 1) as usize)
        }
    }
}

/// The data indexes a search visits: the in-range suspects as given, then every
/// other data index in ascending order.
pub open spec fn search_order(suspects: Seq<usize>, data_len: nat) -> Seq<usize> {
    kept_suspects(suspects, data_len) + untried(kept_suspects(suspects, data_len), data_len)
}

/// The `k`-th byte value other than `orig`, ascending (`k < 255`).
pub open spec fn other_byte(orig: u8, k: int) -> u8 {
    if k < orig {
        k as u8
    } else {
        (k + 1) as u8
    }
}

/// Candidate `t` of the byte search: the byte at index `order[(t as int) / 255]` replaced
/// by the `(t % 255)`-th value other than its own.
pub open spec fn byte_candidate(base: Seq<u8>, order: Seq<usize>, t: int) -> Seq<u8> {
    let idx = order[(t as int) / 255] as int;
    base.update(idx, other_byte(base[idx], t % 255))
}

/// Whether a parity-frame candidate passes the parity check and decodes.
pub open spec fn parity_candidate_ok(p: nat, data_len: nat, c: Seq<u8>) -> bool {
    parity_verify_spec(p, c, data_len) && parse_frame(c) is Ok
}

/// Which byte-search candidates pass.
pub open spec fn byte_search_passes(p: nat, data_len: nat, base: Seq<u8>, order: Seq<usize>) -> Seq<
    bool,
> {
    Seq::new(255 * order.len(), |t: int| parity_candidate_ok(p, data_len, byte_candidate(base, order, t)))
}

/// `s` without repeats, first occurrences kept.
pub open spec fn dedup(s: Seq<usize>) -> Seq<usize>
    decreases s.len(),
{
    if s.len() == 0 {
        Seq::empty()
    } else {
        let d = dedup(s.drop_last());
        if d.contains(s.last()) {
            d
        } else {
            d.push(s.last())
        }
    }
}

/// `pool` topped up with the lowest data indexes from `i` on that it lacks,
/// until it holds eight.
pub open spec fn fill_pool(pool: Seq<usize>, data_len: nat, i: nat) -> Seq<usize>
    decreases data_len - i,
{
    if i >= data_len || pool.len() >= 8 {
        pool
    } else {
        fill_pool(
            if pool.contains(i as usize) {
                pool
            } else {
                pool.push(i as usize)
            },
            data_len,
            i + 1,
        )
    }
}

/// The indexes paired up by the two-erasure search: the distinct in-range
/// suspects, topped up to eight with low data indexes when fewer than two.
pub open spec fn pair_pool(suspects: Seq<usize>, data_len: nat) -> Seq<usize> {
    let d = dedup(kept_suspects(suspects, data_len));
    if d.len() < 2 {
        fill_pool(d, data_len, 0)
    } else {
        d
    }
}

/// The pairs `(pool[i], pool[j])` for `j > i`, by increasing `j`.
pub open spec fn pair_row(pool: Seq<usize>, i: nat) -> Seq<Seq<usize>> {
    Seq::new((pool.len() - i - 1) as nat, |k: int| seq![pool[i as int], pool[i + 1 + k]])
}

/// The pairs of the rows `0..i`.
pub open spec fn pairs_upto(pool: Seq<usize>, i: nat) -> Seq<Seq<usize>>
    decreases i,
{
    if i == 0 {
        Seq::empty()
    } else {
        pairs_upto(pool, (i - 1) as nat) + pair_row(pool, (i - 1) as nat)
    }
}

/// Each index on its own.
pub open spec fn singles(s: Seq<usize>) -> Seq<Seq<usize>> {
    Seq::new(s.len(), |k: int| seq![s[k]])
}

/// The erasure sets the Reed-Solomon search tries: each in-range suspect alone,
/// then (when suspects were given) every pair of the pair pool, then each other
/// data index alone.
pub open spec fn rs_erasure_order(suspects: Seq<usize>, data_len: nat) -> Seq<Seq<usize>> {
    let kept = kept_suspects(suspects, data_len);
    let pool = pair_pool(suspects, data_len);
    singles(kept) + (if suspects.len() > 0 {
        pairs_upto(pool, pool.len())
    } else {
        Seq::empty()
    }) + singles(untried(kept, data_len))
}

/// Whether reconstructing the erasures `missing` gives bytes that pass the
/// Reed-Solomon check and decode.
pub open spec fn rs_candidate_ok(p: nat, data_len: nat, base: Seq<u8>, missing: Seq<usize>) -> bool {
    match rs_recover_spec(p, base, data_len, missing) {
        Some(c) => rs_verify_spec(p, c, data_len) && parse_frame(c) is Ok,
        None => false,
    }
}

/// Which Reed-Solomon candidates pass.
pub open spec fn rs_search_passes(p: nat, data_len: nat, base: Seq<u8>, order: Seq<Seq<usize>>) -> Seq<
    bool,
> {
    Seq::new(order.len(), |t: int| rs_candidate_ok(p, data_len, base, order[t]))
}

/// Telemetry before any repair.
pub open spec fn initial_telemetry(suspects: Seq<usize>) -> RecoveryTelemetry {
    RecoveryTelemetry {
        attempted: false,
        recovered: false,
        attempts: 0,
        method: RecoveryMethod::NoRepair,
        suspect_count: suspects.len() as usize,
        max_attempts_exceeded: false,
    }
}

/// Telemetry of a search that ran, found `found` or not.
pub open spec fn search_telemetry(
    suspects: Seq<usize>,
    passes: Seq<bool>,
    max: nat,
    method: RecoveryMethod,
) -> RecoveryTelemetry {
    RecoveryTelemetry {
        attempted: true,
        recovered: first_pass(passes, max, 0) is Some,
        attempts: scan_attempts(passes, max) as usize,
        method: if first_pass(passes, max, 0) is Some {
            method
        } else {
            RecoveryMethod::NoRepair
        },
        suspect_count: suspects.len() as usize,
        max_attempts_exceeded: scan_exceeded(passes, max),
    }
}

/// Outcome of the Reed-Solomon erasure search over `base` (normalized bytes).
pub open spec fn rs_recovery_spec(
    level: EccLevel,
    base: Seq<u8>,
    data_len: nat,
    suspects: Seq<usize>,
    max: nat,
    stride: nat,
) -> (Option<Seq<u8>>, RecoveryTelemetry) {
    let p = rs_shards_for(level, data_len);
    let order = rs_erasure_order(suspects, data_len);
    let passes = rs_search_passes(p, data_len, base, order);
    match first_pass(passes, max, 0) {
        Some(t) => {
            let method = if order[t as int].len() == 1 {
                RecoveryMethod::ReedSolomonSingle
            } else {
                RecoveryMethod::ReedSolomonPair
            };
            (
                Some(to_layout(rs_recover_spec(p, base, data_len, order[t as int])->0, data_len, stride)),
                search_telemetry(suspects, passes, max, method),
            )
        },
        None => (None, search_telemetry(suspects, passes, max, RecoveryMethod::NoRepair)),
    }
}

/// `base` with its parity tail recomputed from its data bytes.
pub open spec fn rebuilt_tail(base: Seq<u8>, data_len: nat, p: nat) -> Seq<u8> {
    base.subrange(0, data_len as int) + parity_of(base.subrange(0, data_len as int), p)
        + base.subrange((data_len + p) as int, base.len() as int)
}

/// Outcome of the parity repair over `base` (normalized bytes): the tail rebuild,
/// then the single-byte search.
pub open spec fn parity_recovery_spec(
    level: EccLevel,
    base: Seq<u8>,
    data_len: nat,
    suspects: Seq<usize>,
    max: nat,
    stride: nat,
) -> (Option<Seq<u8>>, RecoveryTelemetry) {
    let p = parity_len_for(level, data_len);
    let repaired = rebuilt_tail(base, data_len, p);
    if base.len() < data_len + p {
        (None, initial_telemetry(suspects))
    } else if parity_candidate_ok(p, data_len, repaired) {
        (
            Some(to_layout(repaired, data_len, stride)),
            RecoveryTelemetry {
                attempted: true,
                recovered: true,
                attempts: 0,
                method: RecoveryMethod::ParityTailRebuild,
                suspect_count: suspects.len() as usize,
                max_attempts_exceeded: false,
            },
        )
    } else {
        let order = search_order(suspects, data_len);
        let passes = byte_search_passes(p, data_len, base, order);
        match first_pass(passes, max, 0) {
            Some(t) => (
                Some(to_layout(byte_candidate(base, order, t as int), data_len, stride)),
                search_telemetry(suspects, passes, max, RecoveryMethod::ParityByteSearch),
            ),
            None => (None, search_telemetry(suspects, passes, max, RecoveryMethod::NoRepair)),
        }
    }
}

/// What [`try_recover_for_mode_with_suspects_and_telemetry`] returns.
pub open spec fn recovery_spec(
    mode: TransmissionMode,
    level: EccLevel,
    encoded: Seq<u8>,
    data_len: nat,
    suspects: Seq<usize>,
    max: nat,
) -> (Option<Seq<u8>>, RecoveryTelemetry) {
    let stride = stride_spec(mode) as nat;
    let base = from_layout(encoded, data_len, stride);
    if encoded.len() < data_len {
        (None, initial_telemetry(suspects))
    } else if mode == TransmissionMode::Print && rs_supported_spec(
        rs_shards_for(level, data_len),
        data_len,
    ) {
        rs_recovery_spec(level, base, data_len, suspects, max, stride)
    } else {
        parity_recovery_spec(level, base, data_len, suspects, max, stride)
    }
}

proof fn lemma_first_pass_skip(passes: Seq<bool>, max: nat, a: nat, b: nat)
    requires
        a <= b,
        b <= passes.len(),
        b <= max,
        forall|t: int| a <= t < b ==> !passes[t],
    ensures
        first_pass(passes, max, a) == first_pass(passes, max, b),
    decreases b - a,
{
    if a < b {
        lemma_first_pass_skip(passes, max, a + 1, b);
    }
}

/// The search ends at candidate `t`: all before it fail and it is `found` (when
/// within budget).
proof fn lemma_first_pass_at(passes: Seq<bool>, max: nat, t: nat)
    requires
        t < passes.len(),
        t <= max,
        forall|u: int| 0 <= u < t ==> !passes[u],
    ensures
        t + 1 <= max && passes[t as int] ==> first_pass(passes, max, 0) == Some(t),
        t == max ==> first_pass(passes, max, 0) is None,
{
    lemma_first_pass_skip(passes, max, 0, t);
}

proof fn lemma_first_pass_none(passes: Seq<bool>, max: nat)
    requires
        passes.len() <= max,
        forall|u: int| 0 <= u < passes.len() ==> !passes[u],
    ensures
        first_pass(passes, max, 0) is None,
{
    lemma_first_pass_skip(passes, max, 0, passes.len());
}

proof fn lemma_kept_take_step(s: Seq<usize>, dl: nat, i: int)
    requires
        0 <= i < s.len(),
    ensures
        kept_suspects(s.take(i + 1), dl) == (if (s[i] as nat) < dl {
            kept_suspects(s.take(i), dl).push(s[i])
        } else {
            kept_suspects(s.take(i), dl)
        }),
{
    assert(s.take(i + 1).drop_last() =~= s.take(i));
}

proof fn lemma_kept_prefix(s: Seq<usize>, dl: nat, i: int)
    requires
        0 <= i <= s.len(),
    ensures
        kept_suspects(s.take(i), dl).len() <= kept_suspects(s, dl).len(),
        kept_suspects(s.take(i), dl) == kept_suspects(s, dl).take(
            kept_suspects(s.take(i), dl).len() as int,
        ),
    decreases s.len() - i,
{
    if i == s.len() {
        assert(s.take(i) =~= s);
        assert(kept_suspects(s, dl).take(kept_suspects(s, dl).len() as int) =~= kept_suspects(
            s,
            dl,
        ));
    } else {
        lemma_kept_prefix(s, dl, i + 1);
        lemma_kept_take_step(s, dl, i);
        let a = kept_suspects(s.take(i), dl);
        let b = kept_suspects(s.take(i + 1), dl);
        let c = kept_suspects(s, dl);
        assert(a =~= c.take(a.len() as int));
    }
}

proof fn lemma_kept_in_range(s: Seq<usize>, dl: nat)
    ensures
        forall|k: int|
            0 <= k < kept_suspects(s, dl).len() ==> (#[trigger] kept_suspects(s, dl)[k] as nat)
                < dl,
        kept_suspects(s, dl).len() <= s.len(),
    decreases s.len(),
{
    if s.len() > 0 {
        lemma_kept_in_range(s.drop_last(), dl);
    }
}

proof fn lemma_untried_prefix(kept: Seq<usize>, i: nat, n: nat)
    requires
        i <= n,
    ensures
        untried(kept, i).len() <= untried(kept, n).len(),
        untried(kept, i) == untried(kept, n).take(untried(kept, i).len() as int),
    decreases n - i,
{
    if i == n {
        assert(untried(kept, n).take(untried(kept, n).len() as int) =~= untried(kept, n));
    } else {
        lemma_untried_prefix(kept, i + 1, n);
        let a = untried(kept, i);
        let c = untried(kept, n);
        assert(a =~= c.take(a.len() as int));
    }
}

proof fn lemma_untried_len(kept: Seq<usize>, n: nat)
    ensures
        untried(kept, n).len() <= n,
    decreases n,
{
    if n > 0 {
        lemma_untried_len(kept, (n - 1) as nat);
    }
}

proof fn lemma_pairs_prefix(pool: Seq<usize>, i: nat, n: nat)
    requires
        i <= n,
    ensures
        pairs_upto(pool, i).len() <= pairs_upto(pool, n).len(),
        pairs_upto(pool, i) == pairs_upto(pool, n).take(pairs_upto(pool, i).len() as int),
    decreases n - i,
{
    if i == n {
        assert(pairs_upto(pool, n).take(pairs_upto(pool, n).len() as int) =~= pairs_upto(pool, n));
    } else {
        lemma_pairs_prefix(pool, i + 1, n);
        let a = pairs_upto(pool, i);
        let c = pairs_upto(pool, n);
        assert(a =~= c.take(a.len() as int));
    }
}

fn all_false(n: usize) -> (r: Vec<bool>)
    ensures
        r@ == Seq::new(n as nat, |i: int| false),
{
    let mut out: Vec<bool> = Vec::new();
    let mut k: usize = 0;
    while k < n
        invariant
            k <= n,
            out@ == Seq::new(k as nat, |i: int| false),
        decreases n - k,
    {
        out.push(false);
        assert(out@ =~= Seq::new((k + 1) as nat, |i: int| false));
        k = k + 1;
    }
    out
}

fn vec_contains(v: &Vec<usize>, x: usize) -> (r: bool)
    ensures
        r == v@.contains(x),
{
    let mut i: usize = 0;
    while i < v.len()
        invariant
            i <= v@.len(),
            forall|k: int| 0 <= k < i ==> v@[k] != x,
        decreases v@.len() - i,
    {
        if v[i] == x {
            assert(v@[i as int] == x);
            return true;
        }
        i = i + 1;
    }
    false
}

/// How a run over one block of candidates ended.
enum Step {
    /// A candidate passed; its bytes and the attempt count.
    Found(Vec<u8>, usize),
    /// The budget ran out; the attempt count to report.
    OverBudget(usize),
    /// Every candidate of the block failed; the attempt count so far.
    Next(usize),
}

/// The attempt count reported when the budget runs out at `max`.
spec fn over_budget_count(max: nat) -> nat {
    if max < usize::MAX {
        max + 1
    } else {
        max
    }
}

/// Try the 255 other values of byte `index`: candidates `255 * pos .. 255 * (pos + 1)`
/// of the byte search.
fn search_byte_values(
    parity: &ParityCode,
    candidate: &mut Vec<u8>,
    index: usize,
    data_len: usize,
    attempts: usize,
    max_attempts: usize,
    Ghost(base): Ghost<Seq<u8>>,
    Ghost(order): Ghost<Seq<usize>>,
    Ghost(pos): Ghost<nat>,
) -> (r: Step)
    requires
        old(candidate)@ == base,
        index < data_len <= base.len(),
        pos < order.len(),
        order[pos as int] == index,
        attempts == 255 * pos,
        attempts <= max_attempts,
        forall|t: int|
            0 <= t < attempts ==> !#[trigger] byte_search_passes(
                parity@,
                data_len as nat,
                base,
                order,
            )[t],
    ensures
        ({
            let passes = byte_search_passes(parity@, data_len as nat, base, order);
            match r {
                Step::Next(a) => {
                    &&& a == 255 * (pos + 1)
                    &&& a <= max_attempts
                    &&& forall|t: int| 0 <= t < a ==> !#[trigger] passes[t]
                    &&& final(candidate)@ == base
                },
                Step::Found(c, a) => {
                    &&& 1 <= a <= max_attempts
                    &&& a < passes.len() + 1
                    &&& passes[a - 1]
                    &&& forall|t: int| 0 <= t < a - 1 ==> !#[trigger] passes[t]
                    &&& c@ == byte_candidate(base, order, a - 1)
                },
                Step::OverBudget(a) => {
                    &&& max_attempts < passes.len()
                    &&& forall|t: int| 0 <= t < max_attempts ==> !#[trigger] passes[t]
                    &&& a == over_budget_count(max_attempts as nat)
                },
            }
        }),
{
    let ghost passes = byte_search_passes(parity@, data_len as nat, base, order);
    let original = candidate[index];
    let mut attempts = attempts;
    let mut v: u16 = 0;
    while v < 256
        invariant
            passes == byte_search_passes(parity@, data_len as nat, base, order),
            candidate@.len() == base.len(),
            forall|j: int| 0 <= j < base.len() && j != index ==> candidate@[j] == base[j],
            index < data_len <= base.len(),
            original == base[index as int],
            pos < order.len(),
            order[pos as int] == index,
            v <= 256,
            attempts == 255 * pos + v - (if v > original {
                1int
            } else {
                0int
            }),
            attempts <= max_attempts,
            forall|t: int| 0 <= t < attempts ==> !#[trigger] passes[t],
        decreases 256 - v,
    {
        let value = v as u8;
        if value != original {
            let ghost t = attempts as int;
            let ghost k = t - 255 * pos;
            proof {
                assert(0 <= k < 255);
                vstd::arithmetic::div_mod::lemma_fundamental_div_mod_converse(
                    t,
                    255,
                    pos as int,
                    k,
                );
                assert(other_byte(original, k) == value);
                assert(passes.len() == 255 * order.len());
                assert(t < passes.len()) by (nonlinear_arith)
                    requires
                        t == 255 * pos + k,
                        k < 255,
                        pos < order.len(),
                        passes.len() == 255 * order.len(),
                ;
            }
            if attempts >= max_attempts {
                let reported = if attempts < usize::MAX {
                    attempts + 1
                } else {
                    attempts
                };
                return Step::OverBudget(reported);
            }
            attempts = attempts + 1;
            candidate.set(index, value);
            assert(candidate@ =~= byte_candidate(base, order, t));
            let ok = parity.verify(candidate.as_slice(), data_len) && Frame::decode(
                candidate.as_slice(),
            ).is_ok();
            assert(ok == passes[t]);
            if ok {
                let found = copy_range(candidate.as_slice(), 0, candidate.len());
                return Step::Found(found, attempts);
            }
        }
        v = v + 1;
    }
    candidate.set(index, original);
    assert(candidate@ =~= base);
    Step::Next(attempts)
}

/// The parity byte search over `base`.
fn parity_byte_search(
    parity: &ParityCode,
    base: &Vec<u8>,
    data_len: usize,
    suspects: &[usize],
    max_attempts: usize,
) -> (r: (Option<Vec<u8>>, usize, bool))
    requires
        data_len <= base@.len(),
    ensures
        ({
            let order = search_order(suspects@, data_len as nat);
            let passes = byte_search_passes(parity@, data_len as nat, base@, order);
            &&& match r.0 {
                Some(c) => first_pass(passes, max_attempts as nat, 0) matches Some(t) && c@
                    == byte_candidate(base@, order, t as int),
                None => first_pass(passes, max_attempts as nat, 0) is None,
            }
            &&& r.1 == scan_attempts(passes, max_attempts as nat)
            &&& r.2 == scan_exceeded(passes, max_attempts as nat)
        }),
{
    let ghost dl = data_len as nat;
    let ghost kept = kept_suspects(suspects@, dl);
    let ghost order = search_order(suspects@, dl);
    let ghost passes = byte_search_passes(parity@, dl, base@, order);
    proof {
        lemma_kept_in_range(suspects@, dl);
        lemma_untried_len(kept, dl);
    }
    let mut candidate = copy_range(base.as_slice(), 0, base.len());
    let mut tried = all_false(data_len);
    let mut attempts: usize = 0;
    let ghost mut pos: nat = 0;
    let mut si: usize = 0;
    assert(suspects@.take(0) =~= Seq::<usize>::empty());
    while si < suspects.len()
        invariant
            dl == data_len,
            kept == kept_suspects(suspects@, dl),
            order == search_order(suspects@, dl),
            passes == byte_search_passes(parity@, dl, base@, order),
            data_len <= base@.len(),
            si <= suspects@.len(),
            candidate@ == base@,
            tried@.len() == data_len,
            forall|x: int|
                0 <= x < data_len ==> (#[trigger] tried@[x] <==> kept_suspects(
                    suspects@.take(si as int),
                    dl,
                ).contains(x as usize)),
            pos == kept_suspects(suspects@.take(si as int), dl).len(),
            attempts == 255 * pos,
            attempts <= max_attempts,
            forall|t: int| 0 <= t < attempts ==> !#[trigger] passes[t],
        decreases suspects@.len() - si,
    {
        let index = suspects[si];
        proof {
            lemma_kept_take_step(suspects@, dl, si as int);
            lemma_kept_prefix(suspects@, dl, si + 1);
        }
        if index < data_len {
            let ghost prefix = kept_suspects(suspects@.take(si as int), dl);
            let ghost post = kept_suspects(suspects@.take(si + 1), dl);
            assert(post == prefix.push(index));
            assert(post.len() == pos + 1);
            assert(post == kept.take((pos + 1) as int));
            assert(post[pos as int] == index);
            assert(kept.take((pos + 1) as int)[pos as int] == kept[pos as int]);
            assert(kept[pos as int] == index);
            assert(order[pos as int] == index);
            tried.set(index, true);
            match search_byte_values(
                parity,
                &mut candidate,
                index,
                data_len,
                attempts,
                max_attempts,
                Ghost(base@),
                Ghost(order),
                Ghost(pos),
            ) {
                Step::Found(c, a) => {
                    proof {
                        lemma_first_pass_at(passes, max_attempts as nat, (a - 1) as nat);
                    }
                    return (Some(c), a, false);
                },
                Step::OverBudget(a) => {
                    proof {
                        lemma_first_pass_at(passes, max_attempts as nat, max_attempts as nat);
                    }
                    return (None, a, true);
                },
                Step::Next(a) => {
                    attempts = a;
                },
            }
            proof {
                pos = pos + 1;
                assert forall|x: int| 0 <= x < data_len implies (#[trigger] tried@[x]
                    <==> kept_suspects(suspects@.take(si + 1), dl).contains(x as usize)) by {
                    let post = prefix.push(index);
                    if prefix.contains(x as usize) {
                        let w = choose|w: int| 0 <= w < prefix.len() && prefix[w] == x as usize;
                        assert(post[w] == x as usize);
                    }
                    if post.contains(x as usize) && x != index {
                        let w = choose|w: int| 0 <= w < post.len() && post[w] == x as usize;
                        assert(prefix[w] == x as usize);
                    }
                    if x == index {
                        assert(post[prefix.len() as int] == index);
                    }
                }
            }
        }
        si = si + 1;
    }
    assert(suspects@.take(suspects@.len() as int) =~= suspects@);
    let mut index: usize = 0;
    while index < data_len
        invariant
            dl == data_len,
            kept == kept_suspects(suspects@, dl),
            order == search_order(suspects@, dl),
            passes == byte_search_passes(parity@, dl, base@, order),
            data_len <= base@.len(),
            index <= data_len,
            candidate@ == base@,
            tried@.len() == data_len,
            forall|x: int| 0 <= x < data_len ==> (#[trigger] tried@[x] <==> kept.contains(x as usize)),
            pos == kept.len() + untried(kept, index as nat).len(),
            attempts == 255 * pos,
            attempts <= max_attempts,
            forall|t: int| 0 <= t < attempts ==> !#[trigger] passes[t],
        decreases data_len - index,
    {
        if !tried[index] {
            proof {
                lemma_untried_prefix(kept, (index + 1) as nat, dl);
                let u = untried(kept, index as nat);
                assert(!kept.contains(index));
                assert(((index + 1) - 1) as usize == index);
                let u1 = untried(kept, (index + 1) as nat);
                assert(u1 == u.push(index));
                let full = untried(kept, dl);
                assert(u1 == full.take(u1.len() as int));
                assert(u1[u.len() as int] == index);
                assert(full.take(u1.len() as int)[u.len() as int] == full[u.len() as int]);
                assert(full[u.len() as int] == index);
                assert(order[pos as int] == index);
            }
            match search_byte_values(
                parity,
                &mut candidate,
                index,
                data_len,
                attempts,
                max_attempts,
                Ghost(base@),
                Ghost(order),
                Ghost(pos),
            ) {
                Step::Found(c, a) => {
                    proof {
                        lemma_first_pass_at(passes, max_attempts as nat, (a - 1) as nat);
                    }
                    return (Some(c), a, false);
                },
                Step::OverBudget(a) => {
                    proof {
                        lemma_first_pass_at(passes, max_attempts as nat, max_attempts as nat);
                    }
                    return (None, a, true);
                },
                Step::Next(a) => {
                    attempts = a;
                },
            }
            proof {
                pos = pos + 1;
            }
        }
        index = index + 1;
    }
    proof {
        assert(passes.len() == attempts);
        lemma_first_pass_none(passes, max_attempts as nat);
    }
    (None, attempts, false)
}

/// Reconstruct the erasures `missing` and keep the result only when it passes the
/// Reed-Solomon check and decodes.
fn rs_attempt(rs: &ReedSolomonCode, base: &[u8], data_len: usize, missing: &[usize]) -> (r: Option<
    Vec<u8>,
>)
    requires
        1 <= missing@.len(),
        forall|k: int| 0 <= k < missing@.len() ==> missing@[k] < data_len,
    ensures
        r is Some <==> rs_candidate_ok(rs@, data_len as nat, base@, missing@),
        r matches Some(c) ==> Some(c@) == rs_recover_spec(rs@, base@, data_len as nat, missing@),
{
    let candidate = if missing.len() == 1 {
        assert(missing@ =~= seq![missing@[0]]);
        rs.recover_one_data_shard(base, data_len, missing[0])
    } else {
        rs.recover_data_shards(base, data_len, missing)
    };
    match candidate {
        Some(c) => {
            if rs.verify(c.as_slice(), data_len) && Frame::decode(c.as_slice()).is_ok() {
                Some(c)
            } else {
                None
            }
        },
        None => None,
    }
}

/// Try every pair of `pool` (candidates `attempts .. attempts + #pairs` of the
/// Reed-Solomon search, whose erasure sets `order` lists).
fn rs_pair_search(
    rs: &ReedSolomonCode,
    base: &[u8],
    data_len: usize,
    pool: &Vec<usize>,
    attempts: usize,
    max_attempts: usize,
    Ghost(order): Ghost<Seq<Seq<usize>>>,
) -> (r: Step)
    requires
        forall|k: int| 0 <= k < pool@.len() ==> pool@[k] < data_len,
        attempts + pairs_upto(pool@, pool@.len()).len() <= order.len(),
        forall|q: int|
            0 <= q < pairs_upto(pool@, pool@.len()).len() ==> order[attempts + q] == pairs_upto(
                pool@,
                pool@.len(),
            )[q],
        attempts <= max_attempts,
        forall|t: int|
            0 <= t < attempts ==> !#[trigger] rs_search_passes(
                rs@,
                data_len as nat,
                base@,
                order,
            )[t],
    ensures
        ({
            let passes = rs_search_passes(rs@, data_len as nat, base@, order);
            match r {
                Step::Next(a) => {
                    &&& a == attempts + pairs_upto(pool@, pool@.len()).len()
                    &&& a <= max_attempts
                    &&& forall|t: int| 0 <= t < a ==> !#[trigger] passes[t]
                },
                Step::Found(c, a) => {
                    &&& 1 <= a <= max_attempts
                    &&& a < passes.len() + 1
                    &&& passes[a - 1]
                    &&& forall|t: int| 0 <= t < a - 1 ==> !#[trigger] passes[t]
                    &&& Some(c@) == rs_recover_spec(rs@, base@, data_len as nat, order[a - 1])
                    &&& order[a - 1].len() == 2
                },
                Step::OverBudget(a) => {
                    &&& max_attempts < passes.len()
                    &&& forall|t: int| 0 <= t < max_attempts ==> !#[trigger] passes[t]
                    &&& a == over_budget_count(max_attempts as nat)
                },
            }
        }),
{
    let ghost passes = rs_search_passes(rs@, data_len as nat, base@, order);
    let ghost mid = pairs_upto(pool@, pool@.len());
    let ghost start = attempts as int;
    let n = pool.len();
    let mut attempts = attempts;
    let mut i: usize = 0;
    while i < n
        invariant
            n == pool@.len(),
            mid == pairs_upto(pool@, n as nat),
            forall|k: int| 0 <= k < pool@.len() ==> pool@[k] < data_len,
            start + mid.len() <= order.len(),
            forall|q: int| 0 <= q < mid.len() ==> order[start + q] == mid[q],
            passes == rs_search_passes(rs@, data_len as nat, base@, order),
            i <= n,
            attempts == start + pairs_upto(pool@, i as nat).len(),
            attempts <= max_attempts,
            forall|t: int| 0 <= t < attempts ==> !#[trigger] passes[t],
        decreases n - i,
    {
        proof {
            lemma_pairs_prefix(pool@, (i + 1) as nat, n as nat);
        }
        let ghost before = pairs_upto(pool@, i as nat);
        let ghost row = pair_row(pool@, i as nat);
        assert(pairs_upto(pool@, (i + 1) as nat) == before + row);
        let mut j: usize = i + 1;
        while j < n
            invariant
                n == pool@.len(),
                mid == pairs_upto(pool@, n as nat),
                forall|k: int| 0 <= k < pool@.len() ==> pool@[k] < data_len,
                start + mid.len() <= order.len(),
                forall|q: int| 0 <= q < mid.len() ==> order[start + q] == mid[q],
                passes == rs_search_passes(rs@, data_len as nat, base@, order),
                i < n,
                i + 1 <= j <= n,
                before == pairs_upto(pool@, i as nat),
                row == pair_row(pool@, i as nat),
                before + row == mid.take((before.len() + row.len()) as int),
                before.len() + row.len() <= mid.len(),
                attempts == start + before.len() + (j - i - 1),
                attempts <= max_attempts,
                forall|t: int| 0 <= t < attempts ==> !#[trigger] passes[t],
            decreases n - j,
        {
            let ghost t = attempts as int;
            let ghost k = j - i - 1;
            proof {
                assert(row[k] == seq![pool@[i as int], pool@[j as int]]);
                assert((before + row)[before.len() + k] == row[k]);
                assert(mid[before.len() + k] == row[k]);
                assert(order[t] == row[k]);
                assert(t < passes.len());
            }
            if attempts >= max_attempts {
                let reported = if attempts < usize::MAX {
                    attempts + 1
                } else {
                    attempts
                };
                return Step::OverBudget(reported);
            }
            attempts = attempts + 1;
            let pair: [usize; 2] = [pool[i], pool[j]];
            assert(pair@ =~= seq![pool@[i as int], pool@[j as int]]);
            match rs_attempt(rs, base, data_len, &pair) {
                Some(c) => {
                    return Step::Found(c, attempts);
                },
                None => {},
            }
            j = j + 1;
        }
        i = i + 1;
    }
    Step::Next(attempts)
}

/// The Reed-Solomon erasure search over `base`; the last component says whether
/// the found candidate repaired a pair.
fn rs_search(
    rs: &ReedSolomonCode,
    base: &[u8],
    data_len: usize,
    suspects: &[usize],
    max_attempts: usize,
) -> (r: (Option<Vec<u8>>, usize, bool, bool))
    ensures
        ({
            let order = rs_erasure_order(suspects@, data_len as nat);
            let passes = rs_search_passes(rs@, data_len as nat, base@, order);
            &&& match r.0 {
                Some(c) => first_pass(passes, max_attempts as nat, 0) matches Some(t) && Some(c@)
                    == rs_recover_spec(rs@, base@, data_len as nat, order[t as int]) && r.3 == (
                order[t as int].len() != 1),
                None => first_pass(passes, max_attempts as nat, 0) is None,
            }
            &&& r.1 == scan_attempts(passes, max_attempts as nat)
            &&& r.2 == scan_exceeded(passes, max_attempts as nat)
        }),
{
    let ghost dl = data_len as nat;
    let ghost kept = kept_suspects(suspects@, dl);
    let ghost pool_spec = pair_pool(suspects@, dl);
    let ghost mid = if suspects@.len() > 0 {
        pairs_upto(pool_spec, pool_spec.len())
    } else {
        Seq::<Seq<usize>>::empty()
    };
    let ghost order = rs_erasure_order(suspects@, dl);
    let ghost passes = rs_search_passes(rs@, dl, base@, order);
    proof {
        lemma_kept_in_range(suspects@, dl);
        lemma_untried_len(kept, dl);
        assert(order == singles(kept) + mid + singles(untried(kept, dl)));
    }
    let mut tried = all_false(data_len);
    let mut attempts: usize = 0;
    let mut si: usize = 0;
    assert(suspects@.take(0) =~= Seq::<usize>::empty());
    while si < suspects.len()
        invariant
            dl == data_len,
            kept == kept_suspects(suspects@, dl),
            order == singles(kept) + mid + singles(untried(kept, dl)),
            order == rs_erasure_order(suspects@, dl),
            passes == rs_search_passes(rs@, dl, base@, order),
            si <= suspects@.len(),
            tried@.len() == data_len,
            forall|x: int|
                0 <= x < data_len ==> (#[trigger] tried@[x] <==> kept_suspects(
                    suspects@.take(si as int),
                    dl,
                ).contains(x as usize)),
            attempts == kept_suspects(suspects@.take(si as int), dl).len(),
            attempts <= max_attempts,
            forall|t: int| 0 <= t < attempts ==> !#[trigger] passes[t],
        decreases suspects@.len() - si,
    {
        let index = suspects[si];
        proof {
            lemma_kept_take_step(suspects@, dl, si as int);
            lemma_kept_prefix(suspects@, dl, si + 1);
        }
        if index < data_len {
            let ghost prefix = kept_suspects(suspects@.take(si as int), dl);
            let ghost post = kept_suspects(suspects@.take(si + 1), dl);
            let ghost t = attempts as int;
            proof {
                assert(post == prefix.push(index));
                assert(post == kept.take(t + 1));
                assert(kept.take(t + 1)[t] == kept[t]);
                assert(kept[t] == index);
                assert(order[t] == seq![index]);
            }
            tried.set(index, true);
            if attempts >= max_attempts {
                proof {
                    lemma_first_pass_at(passes, max_attempts as nat, t as nat);
                }
                let reported = if attempts < usize::MAX {
                    attempts + 1
                } else {
                    attempts
                };
                return (None, reported, true, false);
            }
            attempts = attempts + 1;
            let missing: [usize; 1] = [index];
            assert(missing@ =~= seq![index]);
            match rs_attempt(rs, base, data_len, &missing) {
                Some(c) => {
                    proof {
                        lemma_first_pass_at(passes, max_attempts as nat, t as nat);
                    }
                    return (Some(c), attempts, false, false);
                },
                None => {},
            }
            proof {
                assert forall|x: int| 0 <= x < data_len implies (#[trigger] tried@[x]
                    <==> post.contains(x as usize)) by {
                    if prefix.contains(x as usize) {
                        let w = choose|w: int| 0 <= w < prefix.len() && prefix[w] == x as usize;
                        assert(post[w] == x as usize);
                    }
                    if post.contains(x as usize) && x != index {
                        let w = choose|w: int| 0 <= w < post.len() && post[w] == x as usize;
                        assert(prefix[w] == x as usize);
                    }
                    if x == index {
                        assert(post[prefix.len() as int] == index);
                    }
                }
            }
        }
        si = si + 1;
    }
    assert(suspects@.take(suspects@.len() as int) =~= suspects@);
    assert(attempts == kept.len());
    if suspects.len() > 0 {
        let mut pool: Vec<usize> = Vec::new();
        let mut sj: usize = 0;
        while sj < suspects.len()
            invariant
                dl == data_len,
                sj <= suspects@.len(),
                pool@ == dedup(kept_suspects(suspects@.take(sj as int), dl)),
                forall|k: int| 0 <= k < pool@.len() ==> pool@[k] < data_len,
            decreases suspects@.len() - sj,
        {
            let index = suspects[sj];
            proof {
                lemma_kept_take_step(suspects@, dl, sj as int);
            }
            if index < data_len {
                let ghost prev = kept_suspects(suspects@.take(sj as int), dl);
                assert(prev.push(index).drop_last() =~= prev);
                if !vec_contains(&pool, index) {
                    pool.push(index);
                }
            }
            sj = sj + 1;
        }
        assert(suspects@.take(suspects@.len() as int) =~= suspects@);
        if pool.len() < 2 {
            let ghost target = fill_pool(pool@, dl, 0);
            let mut index: usize = 0;
            while index < data_len
                invariant_except_break
                    index <= data_len,
                    pool@.len() < 8,
                    fill_pool(pool@, dl, index as nat) == target,
                invariant
                    dl == data_len,
                    forall|k: int| 0 <= k < pool@.len() ==> pool@[k] < data_len,
                ensures
                    pool@ == target,
                decreases data_len - index,
            {
                let ghost before = pool@;
                if !vec_contains(&pool, index) {
                    pool.push(index);
                }
                assert(fill_pool(before, dl, index as nat) == fill_pool(pool@, dl, (index + 1) as nat));
                if pool.len() >= 8 {
                    assert(fill_pool(pool@, dl, (index + 1) as nat) == pool@);
                    break;
                }
                index = index + 1;
            }
        }
        assert(pool@ == pool_spec);
        assert(mid == pairs_upto(pool_spec, pool_spec.len()));
        proof {
            assert forall|q: int| 0 <= q < mid.len() implies order[attempts + q] == mid[q] by {}
        }
        match rs_pair_search(rs, base, data_len, &pool, attempts, max_attempts, Ghost(order)) {
            Step::Found(c, a) => {
                proof {
                    lemma_first_pass_at(passes, max_attempts as nat, (a - 1) as nat);
                }
                return (Some(c), a, false, true);
            },
            Step::OverBudget(a) => {
                proof {
                    lemma_first_pass_at(passes, max_attempts as nat, max_attempts as nat);
                }
                return (None, a, true, false);
            },
            Step::Next(a) => {
                attempts = a;
            },
        }
        assert(attempts == kept.len() + mid.len());
    } else {
        assert(mid.len() == 0);
    }
    let mut index: usize = 0;
    while index < data_len
        invariant
            dl == data_len,
            kept == kept_suspects(suspects@, dl),
            order == singles(kept) + mid + singles(untried(kept, dl)),
            order == rs_erasure_order(suspects@, dl),
            passes == rs_search_passes(rs@, dl, base@, order),
            index <= data_len,
            tried@.len() == data_len,
            forall|x: int| 0 <= x < data_len ==> (#[trigger] tried@[x] <==> kept.contains(x as usize)),
            attempts == kept.len() + mid.len() + untried(kept, index as nat).len(),
            attempts <= max_attempts,
            forall|t: int| 0 <= t < attempts ==> !#[trigger] passes[t],
        decreases data_len - index,
    {
        if !tried[index] {
            let ghost t = attempts as int;
            proof {
                lemma_untried_prefix(kept, (index + 1) as nat, dl);
                let u = untried(kept, index as nat);
                assert(!kept.contains(index));
                assert(((index + 1) - 1) as usize == index);
                let u1 = untried(kept, (index + 1) as nat);
                assert(u1 == u.push(index));
                let full = untried(kept, dl);
                assert(u1 == full.take(u1.len() as int));
                assert(u1[u.len() as int] == index);
                assert(full.take(u1.len() as int)[u.len() as int] == full[u.len() as int]);
                assert(full[u.len() as int] == index);
                assert(order[t] == seq![index]);
            }
            if attempts >= max_attempts {
                proof {
                    lemma_first_pass_at(passes, max_attempts as nat, t as nat);
                }
                let reported = if attempts < usize::MAX {
                    attempts + 1
                } else {
                    attempts
                };
                return (None, reported, true, false);
            }
            attempts = attempts + 1;
            let missing: [usize; 1] = [index];
            assert(missing@ =~= seq![index]);
            match rs_attempt(rs, base, data_len, &missing) {
                Some(c) => {
                    proof {
                        lemma_first_pass_at(passes, max_attempts as nat, t as nat);
                    }
                    return (Some(c), attempts, false, false);
                },
                None => {},
            }
        }
        index = index + 1;
    }
    proof {
        assert(passes.len() == attempts);
        lemma_first_pass_none(passes, max_attempts as nat);
    }
    (None, attempts, false, false)
}

proof fn lemma_pairs_len(pool: Seq<usize>, i: nat)
    requires
        i <= pool.len(),
    ensures
        forall|k: int| 0 <= k < pairs_upto(pool, i).len() ==> (#[trigger] pairs_upto(pool, i)[k]).len() == 2,
    decreases i,
{
    if i > 0 {
        lemma_pairs_len(pool, (i - 1) as nat);
        let prev = pairs_upto(pool, (i - 1) as nat);
        let row = pair_row(pool, (i - 1) as nat);
        let all = prev + row;
        assert forall|k: int| 0 <= k < all.len() implies (#[trigger] all[k]).len() == 2 by {
            if k < prev.len() {
                assert(all[k] == prev[k]);
            } else {
                assert(all[k] == row[k - prev.len()]);
            }
        }
    }
}

proof fn lemma_erasure_sets_small(suspects: Seq<usize>, data_len: nat)
    ensures
        forall|k: int|
            0 <= k < rs_erasure_order(suspects, data_len).len() ==> (#[trigger] rs_erasure_order(
                suspects,
                data_len,
            )[k]).len() <= 2,
{
    let kept = kept_suspects(suspects, data_len);
    let pool = pair_pool(suspects, data_len);
    let a = singles(kept);
    let b = if suspects.len() > 0 {
        pairs_upto(pool, pool.len())
    } else {
        Seq::empty()
    };
    let c = singles(untried(kept, data_len));
    lemma_pairs_len(pool, pool.len());
    let o = a + b + c;
    assert(o == rs_erasure_order(suspects, data_len));
    assert forall|k: int| 0 <= k < o.len() implies (#[trigger] o[k]).len() <= 2 by {
        if k < a.len() {
            assert(o[k] == a[k]);
        } else if k < a.len() + b.len() {
            assert(o[k] == b[k - a.len()]);
        } else {
            assert(o[k] == c[k - a.len() - b.len()]);
        }
    }
}

proof fn lemma_untried_in_range(kept: Seq<usize>, n: nat)
    requires
        n <= usize::MAX,
    ensures
        forall|k: int| 0 <= k < untried(kept, n).len() ==> (#[trigger] untried(kept, n)[k] as nat) < n,
    decreases n,
{
    if n > 0 {
        lemma_untried_in_range(kept, (n - 1) as nat);
        let prev = untried(kept, (n - 1) as nat);
        let u = untried(kept, n);
        assert(((n - 1) as usize) as nat == n - 1);
        assert forall|k: int| 0 <= k < u.len() implies (#[trigger] u[k] as nat) < n by {
            if k < prev.len() {
                assert(u[k] == prev[k]);
            }
        }
    }
}

proof fn lemma_search_order_in_range(suspects: Seq<usize>, data_len: nat)
    requires
        data_len <= usize::MAX,
    ensures
        forall|k: int|
            0 <= k < search_order(suspects, data_len).len() ==> (#[trigger] search_order(
                suspects,
                data_len,
            )[k] as nat) < data_len,
{
    let kept = kept_suspects(suspects, data_len);
    let un = untried(kept, data_len);
    lemma_kept_in_range(suspects, data_len);
    lemma_untried_in_range(kept, data_len);
    let o = kept + un;
    assert forall|k: int| 0 <= k < o.len() implies (#[trigger] o[k] as nat) < data_len by {
        if k < kept.len() {
            assert(o[k] == kept[k]);
        } else {
            assert(o[k] == un[k - kept.len()]);
        }
    }
}

proof fn lemma_byte_candidate_close(base: Seq<u8>, order: Seq<usize>, t: int, data_len: nat)
    requires
        0 <= t < 255 * order.len(),
        forall|k: int| 0 <= k < order.len() ==> (#[trigger] order[k] as nat) < data_len,
        data_len <= base.len(),
    ensures
        byte_candidate(base, order, t).len() == base.len(),
        forall|i: int|
            0 <= i < data_len && !seq![order[t / 255]].contains(i as usize) ==> byte_candidate(
                base,
                order,
                t,
            )[i] == base[i],
{
    assert(0 <= t / 255 < order.len()) by (nonlinear_arith)
        requires
            0 <= t < 255 * order.len(),
    ;
    let idx = order[t / 255];
    assert(seq![idx][0] == idx);
    assert forall|i: int| 0 <= i < data_len && !seq![idx].contains(i as usize) implies byte_candidate(
        base,
        order,
        t,
    )[i] == base[i] by {
        if i == idx as int {
            assert(seq![idx].contains(i as usize));
        }
    }
}

/// The data bytes of `c` equal those of `e` outside the at most two indexes `m`.
pub open spec fn data_changes_within(c: Seq<u8>, e: Seq<u8>, data_len: nat, m: Seq<usize>) -> bool {
    &&& m.len() <= 2
    &&& forall|i: int| 0 <= i < data_len && !m.contains(i as usize) ==> c[i] == e[i]
}

/// The candidate a recovery returns, before its layout is restored: as long as the
/// normalized bytes and equal to them on the data bytes outside the at most two `m`.
proof fn lemma_candidate_close(
    mode: TransmissionMode,
    level: EccLevel,
    encoded: Seq<u8>,
    data_len: nat,
    suspects: Seq<usize>,
    max: nat,
) -> (cm: (Seq<u8>, Seq<usize>))
    requires
        data_len <= usize::MAX,
        data_len <= encoded.len(),
        recovery_spec(mode, level, encoded, data_len, suspects, max).0 is Some,
    ensures
        recovery_spec(mode, level, encoded, data_len, suspects, max).0 == Some(
            to_layout(cm.0, data_len, stride_spec(mode) as nat),
        ),
        cm.0.len() == from_layout(encoded, data_len, stride_spec(mode) as nat).len(),
        cm.1.len() <= 2,
        forall|i: int|
            0 <= i < data_len && !cm.1.contains(i as usize) ==> cm.0[i] == from_layout(
                encoded,
                data_len,
                stride_spec(mode) as nat,
            )[i],
{
    let stride = stride_spec(mode) as nat;
    let base = from_layout(encoded, data_len, stride);
    lemma_from_layout_len(encoded, data_len, stride);
    let rp = rs_shards_for(level, data_len);
    let pl = parity_len_for(level, data_len);
    if mode == TransmissionMode::Print && rs_supported_spec(rp, data_len) {
        let order = rs_erasure_order(suspects, data_len);
        let passes = rs_search_passes(rp, data_len, base, order);
        let t = first_pass(passes, max, 0)->0;
        lemma_first_pass_found(passes, max, 0);
        lemma_erasure_sets_small(suspects, data_len);
        assert(rs_candidate_ok(rp, data_len, base, order[t as int]));
        (rs_recover_spec(rp, base, data_len, order[t as int])->0, order[t as int])
    } else {
        let repaired = rebuilt_tail(base, data_len, pl);
        crate::ecc::lemma_parity_of_len(base.subrange(0, data_len as int), pl);
        if parity_candidate_ok(pl, data_len, repaired) {
            (repaired, Seq::empty())
        } else {
            let order = search_order(suspects, data_len);
            let passes = byte_search_passes(pl, data_len, base, order);
            let t = first_pass(passes, max, 0)->0;
            lemma_first_pass_found(passes, max, 0);
            lemma_search_order_in_range(suspects, data_len);
            lemma_byte_candidate_close(base, order, t as int, data_len);
            (byte_candidate(base, order, t as int), seq![order[(t as int) / 255]])
        }
    }
}

/// A codeword that recovery returns is as long as the bytes it was given and differs
/// from them in at most two data bytes.
pub proof fn recovered_codeword_close(
    mode: TransmissionMode,
    level: EccLevel,
    encoded: Seq<u8>,
    data_len: nat,
    suspects: Seq<usize>,
    max: nat,
)
    requires
        data_len <= usize::MAX,
    ensures
        recovery_spec(mode, level, encoded, data_len, suspects, max).0 matches Some(c) ==> {
            &&& c.len() == encoded.len()
            &&& exists|m: Seq<usize>| #[trigger] data_changes_within(c, encoded, data_len, m)
        },
{
    let stride = stride_spec(mode) as nat;
    let base = from_layout(encoded, data_len, stride);
    let out = recovery_spec(mode, level, encoded, data_len, suspects, max).0;
    if encoded.len() >= data_len && out is Some {
        lemma_from_layout_len(encoded, data_len, stride);
        assert(forall|i: int| 0 <= i < data_len ==> base[i] == encoded[i]);
        let (candidate, m) = lemma_candidate_close(mode, level, encoded, data_len, suspects, max);
        lemma_to_layout_len(candidate, data_len, stride);
        let c = to_layout(candidate, data_len, stride);
        assert(forall|i: int| 0 <= i < data_len ==> c[i] == candidate[i]);
        assert(data_changes_within(c, encoded, data_len, m));
    }
}

proof fn lemma_first_pass_within(passes: Seq<bool>, max: nat, t: nat)
    ensures
        first_pass(passes, max, t) matches Some(u) ==> u + 1 <= max,
    decreases passes.len() - t,
{
    if t < passes.len() && t + 1 <= max && !passes[t as int] {
        lemma_first_pass_within(passes, max, t + 1);
    }
}

proof fn lemma_search_telemetry(suspects: Seq<usize>, passes: Seq<bool>, max: nat, method: RecoveryMethod)
    requires
        suspects.len() <= usize::MAX,
        max <= usize::MAX,
    ensures
        ({
            let t = search_telemetry(suspects, passes, max, method);
            &&& t.attempted
            &&& t.suspect_count == suspects.len()
            &&& t.recovered == (first_pass(passes, max, 0) is Some)
            &&& t.attempts <= max + 1
            &&& t.max_attempts_exceeded ==> t.attempts == (if max < usize::MAX { max + 1 } else { max })
            &&& t.attempts == max + 1 ==> t.max_attempts_exceeded
            &&& t.max_attempts_exceeded ==> !t.recovered
        }),
{
    lemma_first_pass_within(passes, max, 0);
}

/// Recovery telemetry tells the truth: it counts the suspects; a codeword comes back
/// exactly when it reports a recovery, and a recovery was attempted with a named
/// method; at most one attempt past the budget is reported; and running out of
/// budget is reported exactly when the attempt count went past it (held at
/// `usize::MAX` when the budget is `usize::MAX` itself).
pub proof fn recovery_telemetry_consistent(
    mode: TransmissionMode,
    level: EccLevel,
    encoded: Seq<u8>,
    data_len: nat,
    suspects: Seq<usize>,
    max: nat,
)
    requires
        suspects.len() <= usize::MAX,
        max <= usize::MAX,
    ensures
        ({
            let (out, t) = recovery_spec(mode, level, encoded, data_len, suspects, max);
            &&& t.suspect_count == suspects.len()
            &&& out is Some <==> t.recovered
            &&& t.recovered ==> t.attempted && t.method != RecoveryMethod::NoRepair
            &&& t.attempts <= max + 1
            &&& t.max_attempts_exceeded ==> t.attempts == (if max < usize::MAX { max + 1 } else { max })
            &&& t.attempts == max + 1 ==> t.max_attempts_exceeded
        }),
{
    let stride = stride_spec(mode) as nat;
    let base = from_layout(encoded, data_len, stride);
    if encoded.len() >= data_len {
        if mode == TransmissionMode::Print && rs_supported_spec(rs_shards_for(level, data_len), data_len) {
            let p = rs_shards_for(level, data_len);
            let order = rs_erasure_order(suspects, data_len);
            let passes = rs_search_passes(p, data_len, base, order);
            lemma_search_telemetry(suspects, passes, max, RecoveryMethod::ReedSolomonSingle);
            lemma_search_telemetry(suspects, passes, max, RecoveryMethod::ReedSolomonPair);
            lemma_search_telemetry(suspects, passes, max, RecoveryMethod::NoRepair);
        } else {
            let p = parity_len_for(level, data_len);
            let repaired = rebuilt_tail(base, data_len, p);
            if base.len() >= data_len + p && !parity_candidate_ok(p, data_len, repaired) {
                let order = search_order(suspects, data_len);
                let passes = byte_search_passes(p, data_len, base, order);
                lemma_search_telemetry(suspects, passes, max, RecoveryMethod::ParityByteSearch);
                lemma_search_telemetry(suspects, passes, max, RecoveryMethod::NoRepair);
            }
        }
    }
}

/// What a repaired codeword has to pass holds of every codeword the repair
/// returns: it verifies for its mode, and its data decodes as a frame.
pub proof fn lemma_recovery_sound(
    mode: TransmissionMode,
    level: EccLevel,
    encoded: Seq<u8>,
    data_len: nat,
    suspects: Seq<usize>,
    max: nat,
)
    ensures
        recovery_spec(mode, level, encoded, data_len, suspects, max).0 matches Some(v) ==> {
            &&& verify_for_mode_spec(mode, level, v, data_len)
            &&& parse_frame(from_layout(v, data_len, stride_spec(mode) as nat)) is Ok
        },
{
    let stride = stride_spec(mode) as nat;
    let base = from_layout(encoded, data_len, stride);
    let out = recovery_spec(mode, level, encoded, data_len, suspects, max).0;
    if encoded.len() >= data_len && out is Some {
        lemma_from_layout_len(encoded, data_len, stride);
        let rp = rs_shards_for(level, data_len);
        let pl = parity_len_for(level, data_len);
        if mode == TransmissionMode::Print && rs_supported_spec(rp, data_len) {
            let order = rs_erasure_order(suspects, data_len);
            let passes = rs_search_passes(rp, data_len, base, order);
            let t = first_pass(passes, max, 0)->0;
            lemma_first_pass_found(passes, max, 0);
            let c = rs_recover_spec(rp, base, data_len, order[t as int])->0;
            assert(rs_candidate_ok(rp, data_len, base, order[t as int]));
            lemma_layout_roundtrip(c, data_len, stride);
            lemma_to_layout_len(c, data_len, stride);
        } else {
            let repaired = rebuilt_tail(base, data_len, pl);
            if parity_candidate_ok(pl, data_len, repaired) {
                lemma_layout_roundtrip(repaired, data_len, stride);
                lemma_to_layout_len(repaired, data_len, stride);
            } else {
                let order = search_order(suspects, data_len);
                let passes = byte_search_passes(pl, data_len, base, order);
                let t = first_pass(passes, max, 0)->0;
                lemma_first_pass_found(passes, max, 0);
                let c = byte_candidate(base, order, t as int);
                assert(parity_candidate_ok(pl, data_len, c));
                lemma_layout_roundtrip(c, data_len, stride);
                lemma_to_layout_len(c, data_len, stride);
            }
        }
    }
}

proof fn lemma_first_pass_found(passes: Seq<bool>, max: nat, t: nat)
    ensures
        first_pass(passes, max, t) matches Some(u) ==> t <= u < passes.len() && passes[u as int],
    decreases passes.len() - t,
{
    if t < passes.len() && t + 1 <= max && !passes[t as int] {
        lemma_first_pass_found(passes, max, t + 1);
    }
}

proof fn lemma_from_layout_len(encoded: Seq<u8>, data_len: nat, stride: nat)
    requires
        data_len <= encoded.len(),
    ensures
        from_layout(encoded, data_len, stride).len() == encoded.len(),
{
    crate::interleave::lemma_interleave_len(
        encoded.subrange(data_len as int, encoded.len() as int),
        stride,
    );
}

proof fn lemma_to_layout_len(encoded: Seq<u8>, data_len: nat, stride: nat)
    requires
        data_len <= encoded.len(),
    ensures
        to_layout(encoded, data_len, stride).len() == encoded.len(),
{
    crate::interleave::lemma_interleave_len(
        encoded.subrange(data_len as int, encoded.len() as int),
        stride,
    );
}

/// Attempt to recover encoded bytes and return recovery telemetry.
///
/// Print frames that byte-shard Reed-Solomon can hold are repaired by
/// reconstructing erased data bytes: each in-range suspect alone, then (given
/// suspects) pairs of suspects, then every other data byte alone. Other frames
/// first get their parity tail rebuilt from the data, then every other value of
/// each data byte is tried, suspects first. A candidate is returned only when it
/// passes the code and decodes as a frame; `max_attempts` bounds the candidates
/// tried.
pub fn try_recover_for_mode_with_suspects_and_telemetry(
    mode: TransmissionMode,
    level: EccLevel,
    encoded: &[u8],
    data_len: usize,
    suspects: &[usize],
    max_attempts: usize,
) -> (r: (Option<Vec<u8>>, RecoveryTelemetry))
    ensures
        r.1 == recovery_spec(
            mode,
            level,
            encoded@,
            data_len as nat,
            suspects@,
            max_attempts as nat,
        ).1,
        match r.0 {
            Some(v) => recovery_spec(
                mode,
                level,
                encoded@,
                data_len as nat,
                suspects@,
                max_attempts as nat,
            ).0 == Some(v@),
            None => recovery_spec(
                mode,
                level,
                encoded@,
                data_len as nat,
                suspects@,
                max_attempts as nat,
            ).0 is None,
        },
        r.0 matches Some(v) ==> verify_for_mode_spec(mode, level, v@, data_len as nat),
        r.0 matches Some(v) ==> parse_frame(
            from_layout(v@, data_len as nat, stride_spec(mode) as nat),
        ) is Ok,
{
    proof {
        lemma_recovery_sound(mode, level, encoded@, data_len as nat, suspects@, max_attempts as nat);
    }
    let initial = RecoveryTelemetry {
        attempted: false,
        recovered: false,
        attempts: 0,
        method: RecoveryMethod::NoRepair,
        suspect_count: suspects.len(),
        max_attempts_exceeded: false,
    };
    if encoded.len() < data_len {
        return (None, initial);
    }
    let stride = interleave_stride_for_mode(mode, level);
    let normalized = from_encoded_layout(encoded, data_len, stride);
    proof {
        lemma_from_layout_len(encoded@, data_len as nat, stride as nat);
    }
    let is_print = match mode {
        TransmissionMode::Print => true,
        _ => false,
    };
    if is_print {
        let rs = ReedSolomonCode::from_level(level, data_len);
        if rs.is_supported(data_len) {
            let (found, attempts, exceeded, pair) = rs_search(
                &rs,
                normalized.as_slice(),
                data_len,
                suspects,
                max_attempts,
            );
            match found {
                Some(c) => {
                    let out = to_encoded_layout(c.as_slice(), data_len, stride);
                    let telemetry = RecoveryTelemetry {
                        attempted: true,
                        recovered: true,
                        attempts,
                        method: if pair {
                            RecoveryMethod::ReedSolomonPair
                        } else {
                            RecoveryMethod::ReedSolomonSingle
                        },
                        suspect_count: suspects.len(),
                        max_attempts_exceeded: false,
                    };
                    return (Some(out), telemetry);
                },
                None => {
                    let telemetry = RecoveryTelemetry {
                        attempted: true,
                        recovered: false,
                        attempts,
                        method: RecoveryMethod::NoRepair,
                        suspect_count: suspects.len(),
                        max_attempts_exceeded: exceeded,
                    };
                    return (None, telemetry);
                },
            }
        }
    }
    let parity = ParityCode::from_level(level, data_len);
    let parity_len = parity.parity_len();
    if normalized.len() - data_len < parity_len {
        return (None, initial);
    }
    let data = copy_range(normalized.as_slice(), 0, data_len);
    let expected = parity.parity_bytes(data.as_slice());
    let mut repaired = copy_range(normalized.as_slice(), 0, data_len);
    push_all(&mut repaired, expected.as_slice());
    let rest = copy_range(normalized.as_slice(), data_len + parity_len, normalized.len());
    push_all(&mut repaired, rest.as_slice());
    if parity.verify(repaired.as_slice(), data_len) && Frame::decode(repaired.as_slice()).is_ok() {
        let out = to_encoded_layout(repaired.as_slice(), data_len, stride);
        let telemetry = RecoveryTelemetry {
            attempted: true,
            recovered: true,
            attempts: 0,
            method: RecoveryMethod::ParityTailRebuild,
            suspect_count: suspects.len(),
            max_attempts_exceeded: false,
        };
        return (Some(out), telemetry);
    }
    let (found, attempts, exceeded) = parity_byte_search(
        &parity,
        &normalized,
        data_len,
        suspects,
        max_attempts,
    );
    match found {
        Some(c) => {
            let out = to_encoded_layout(c.as_slice(), data_len, stride);
            let telemetry = RecoveryTelemetry {
                attempted: true,
                recovered: true,
                attempts,
                method: RecoveryMethod::ParityByteSearch,
                suspect_count: suspects.len(),
                max_attempts_exceeded: false,
            };
            (Some(out), telemetry)
        },
        None => {
            let telemetry = RecoveryTelemetry {
                attempted: true,
                recovered: false,
                attempts,
                method: RecoveryMethod::NoRepair,
                suspect_count: suspects.len(),
                max_attempts_exceeded: exceeded,
            };
            (None, telemetry)
        },
    }
}

/// Attempt to recover encoded bytes with optional suspect-byte prioritization.
///
/// `suspects` should contain likely-corrupted byte indexes in the data region.
/// Recovery will try these first, then continue with full search until
/// `max_attempts` candidate mutations have been evaluated.
pub fn try_recover_for_mode_with_suspects(
    mode: TransmissionMode,
    level: EccLevel,
    encoded: &[u8],
    data_len: usize,
    suspects: &[usize],
    max_attempts: usize,
) -> (r: Option<Vec<u8>>)
    ensures
        match r {
            Some(v) => recovery_spec(
                mode,
                level,
                encoded@,
                data_len as nat,
                suspects@,
                max_attempts as nat,
            ).0 == Some(v@),
            None => recovery_spec(
                mode,
                level,
                encoded@,
                data_len as nat,
                suspects@,
                max_attempts as nat,
            ).0 is None,
        },
        r matches Some(v) ==> verify_for_mode_spec(mode, level, v@, data_len as nat),
{
    try_recover_for_mode_with_suspects_and_telemetry(
        mode,
        level,
        encoded,
        data_len,
        suspects,
        max_attempts,
    ).0
}

/// Attempt to recover encoded bytes for modes backed by parity code.
///
/// This currently targets single-byte corruption in the data region and
/// deterministic parity repair. It is intentionally conservative and only
/// returns a candidate when parity validation succeeds after repair.
pub fn try_recover_for_mode(
    mode: TransmissionMode,
    level: EccLevel,
    encoded: &[u8],
    data_len: usize,
) -> (r: Option<Vec<u8>>)
    ensures
        match r {
            Some(v) => recovery_spec(
                mode,
                level,
                encoded@,
                data_len as nat,
                Seq::empty(),
                usize::MAX as nat,
            ).0 == Some(v@),
            None => recovery_spec(
                mode,
                level,
                encoded@,
                data_len as nat,
                Seq::empty(),
                usize::MAX as nat,
            ).0 is None,
        },
        r matches Some(v) ==> verify_for_mode_spec(mode, level, v@, data_len as nat),
{
    let none: [usize; 0] = [];
    assert(none@ =~= Seq::<usize>::empty());
    try_recover_for_mode_with_suspects(mode, level, encoded, data_len, &none, usize::MAX)
}

} // verus!
