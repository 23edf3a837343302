//! Bottle shake: one-shot envelopes whose bell-shaped responses combine by
//! maximum — never by sum — into the bottle's vertical offset.
//!
//! The bell is the Gauss curve `(1/sqrt(2*pi)) * exp(-(8s-4)^2 / 2)` over
//! `s` in `[0, 1]`, tabulated in twenty segments of fixed-point micro units
//! and interpolated linearly, so the response is exact integer arithmetic.

use vstd::prelude::*;
use crate::definition::COORD_LIMIT;
use crate::math::{lerp_spec, lemma_lerp_bounds};

verus! {

/// How long one shake envelope lasts.
pub const SHAKE_DURATION_MS: u64 = 1000;

/// The bell's peak value (micro units), at the middle of an envelope.
pub const BELL_PEAK_MICRO: u64 = 398_942;

/// One shake: the input amplitude and how long ago it was added.
#[derive(Clone, Copy, Debug, PartialEq, Eq, Structural)]
pub struct ShakeEnvelope {
    pub amp_x: i64,
    pub amp_y: i64,
    pub elapsed_ms: u64,
}

/// The tabulated bell, at `k/20` of an envelope's duration (micro units).
pub open spec fn bell_table(k: int) -> int {
    if k <= 0 {
        134
    } else if k == 1 {
        612
    } else if k == 2 {
        2384
    } else if k == 3 {
        7915
    } else if k == 4 {
        22395
    } else if k == 5 {
        53991
    } else if k == 6 {
        110921
    } else if k == 7 {
        194186
    } else if k == 8 {
        289692
    } else if k == 9 {
        368270
    } else if k == 10 {
        398942
    } else if k == 11 {
        368270
    } else if k == 12 {
        289692
    } else if k == 13 {
        194186
    } else if k == 14 {
        110921
    } else if k == 15 {
        53991
    } else if k == 16 {
        22395
    } else if k == 17 {
        7915
    } else if k == 18 {
        2384
    } else if k == 19 {
        612
    } else {
        134
    }
}

/// The bell at `s` thousandths of the duration, clamped to `[0, 1000]` and
/// interpolated between table nodes (micro units).
pub open spec fn bell_micro_spec(s_milli: int) -> int {
    let s = if s_milli < 0 {
        0
    } else if s_milli > 1000 {
        1000
    } else {
        s_milli
    };
    let k = s / 50;
    let off = s % 50;
    let lo = bell_table(k);
    let hi = bell_table(k + 1);
    if hi >= lo {
        lo + (hi - lo) * off / 50
    } else {
        lo - (lo - hi) * off / 50
    }
}

/// Every table node is within the peak.
proof fn lemma_bell_table_bounds(k: int)
    ensures
        134 <= bell_table(k) <= BELL_PEAK_MICRO,
{
}

/// The interpolated bell stays within the table's range.
pub proof fn lemma_bell_bounds(s_milli: int)
    ensures
        0 <= bell_micro_spec(s_milli) <= BELL_PEAK_MICRO,
{
    let s = if s_milli < 0 {
        0int
    } else if s_milli > 1000 {
        1000int
    } else {
        s_milli
    };
    let k = s / 50;
    let off = s % 50;
    let lo = bell_table(k);
    let hi = bell_table(k + 1);
    lemma_bell_table_bounds(k);
    lemma_bell_table_bounds(k + 1);
    if hi >= lo {
        lemma_lerp_bounds(lo, hi, off, 50);
        assert(off * (hi - lo) == (hi - lo) * off) by (nonlinear_arith);
    } else {
        lemma_lerp_bounds(hi, lo, off, 50);
        assert(off * (lo - hi) == (lo - hi) * off) by (nonlinear_arith);
        assert(0 <= (lo - hi) * off / 50 <= lo - hi) by {
            assert(lerp_spec(hi, lo, off, 50) == hi + (lo - hi) * off / 50);
        };
    }
}

/// The bell at `s_milli` thousandths of an envelope's duration.
pub fn bell_micro(s_milli: i64) -> (r: u64)
    ensures
        r == bell_micro_spec(s_milli as int),
        r <= BELL_PEAK_MICRO,
{
    let s: u64 = if s_milli < 0 {
        0
    } else if s_milli > 1000 {
        1000
    } else {
        s_milli as u64
    };
    let k: usize = (s / 50) as usize;
    let off: u64 = s % 50;
    let lo = bell_node(k);
    let hi = bell_node(k + 1);
    proof {
        lemma_bell_bounds(s_milli as int);
        if hi >= lo {
            lemma_lerp_bounds(lo as int, hi as int, off as int, 50);
            assert(off * (hi - lo) == (hi - lo) * off) by (nonlinear_arith);
        } else {
            lemma_lerp_bounds(hi as int, lo as int, off as int, 50);
            assert(off * (lo - hi) == (lo - hi) * off) by (nonlinear_arith);
            assert(lerp_spec(hi as int, lo as int, off as int, 50) == hi + (lo - hi) * off
                / 50);
        }
    }
    if hi >= lo {
        lo + (hi - lo) * off / 50
    } else {
        lo - (lo - hi) * off / 50
    }
}

/// One table node.
fn bell_node(k: usize) -> (r: u64)
    ensures
        r == bell_table(k as int),
        134 <= r <= BELL_PEAK_MICRO,
{
    if k == 0 {
        134
    } else if k == 1 {
        612
    } else if k == 2 {
        2384
    } else if k == 3 {
        7915
    } else if k == 4 {
        22395
    } else if k == 5 {
        53991
    } else if k == 6 {
        110921
    } else if k == 7 {
        194186
    } else if k == 8 {
        289692
    } else if k == 9 {
        368270
    } else if k == 10 {
        398942
    } else if k == 11 {
        368270
    } else if k == 12 {
        289692
    } else if k == 13 {
        194186
    } else if k == 14 {
        110921
    } else if k == 15 {
        53991
    } else if k == 16 {
        22395
    } else if k == 17 {
        7915
    } else if k == 18 {
        2384
    } else if k == 19 {
        612
    } else {
        134
    }
}

/// Where an envelope currently sits on the bell: its vertical amplitude
/// scaled by its elapsed fraction of a second, in thousandths.
pub open spec fn envelope_arg(e: ShakeEnvelope) -> int {
    if e.amp_y >= 0 {
        e.amp_y * e.elapsed_ms / 1000
    } else {
        -((-e.amp_y) * e.elapsed_ms / 1000)
    }
}

/// Largest bell response among the active envelopes; zero with none active.
pub open spec fn max_bell(s: Seq<ShakeEnvelope>) -> int
    decreases s.len(),
{
    if s.len() == 0 {
        0
    } else {
        let v = bell_micro_spec(envelope_arg(s.last()));
        let rest = max_bell(s.drop_last());
        if v >= rest {
            v
        } else {
            rest
        }
    }
}

/// The bottle's downward offset from its origin (milli units).
pub open spec fn spec_shake_offset(s: Seq<ShakeEnvelope>, shake_k: int) -> int {
    shake_k * max_bell(s) / 1_000_000
}

/// Every envelope's response is within the maximum.
pub proof fn lemma_max_bell_ge(s: Seq<ShakeEnvelope>, i: int)
    requires
        0 <= i < s.len(),
    ensures
        bell_micro_spec(envelope_arg(s[i])) <= max_bell(s),
        0 <= max_bell(s),
    decreases s.len(),
{
    lemma_bell_bounds(envelope_arg(s[i]));
    if i == s.len() - 1 {
        if s.len() > 1 {
            lemma_max_bell_ge(s.drop_last(), 0);
        }
    } else {
        lemma_max_bell_ge(s.drop_last(), i);
        assert(s.drop_last()[i] == s[i]);
    }
}

/// Shake linearity: a second envelope equal to one already active leaves the
/// bottle offset exactly unchanged — simultaneous equal shakes combine by
/// maximum, not by sum.
pub proof fn lemma_shake_linearity(s: Seq<ShakeEnvelope>, e: ShakeEnvelope, shake_k: int)
    requires
        s.contains(e),
    ensures
        spec_shake_offset(s.push(e), shake_k) == spec_shake_offset(s, shake_k),
{
    let i = choose|i: int| 0 <= i < s.len() && s[i] == e;
    lemma_max_bell_ge(s, i);
    assert(s.push(e).drop_last() =~= s);
    assert(s.push(e).last() == e);
}

/// The active shake envelopes of one bottle.
pub struct ShakeState {
    pub envelopes: Vec<ShakeEnvelope>,
}

/// What the shake state maintains of each envelope.
pub open spec fn valid_envelope(e: ShakeEnvelope) -> bool {
    &&& -COORD_LIMIT <= e.amp_x <= COORD_LIMIT
    &&& -COORD_LIMIT <= e.amp_y <= COORD_LIMIT
    &&& e.elapsed_ms < SHAKE_DURATION_MS
}

/// The envelopes of `s` advanced by `dt_ms`, expired ones removed.
pub open spec fn spec_ticked(s: Seq<ShakeEnvelope>, dt_ms: u64) -> Seq<ShakeEnvelope>
    decreases s.len(),
{
    if s.len() == 0 {
        Seq::empty()
    } else {
        let rest = spec_ticked(s.drop_first(), dt_ms);
        let e = s[0];
        if e.elapsed_ms + dt_ms < SHAKE_DURATION_MS {
            seq![ShakeEnvelope { elapsed_ms: (e.elapsed_ms + dt_ms) as u64, ..e }] + rest
        } else {
            rest
        }
    }
}

/// Appending an envelope to the input appends its survivor, if any.
proof fn lemma_spec_ticked_snoc(s: Seq<ShakeEnvelope>, e: ShakeEnvelope, dt_ms: u64)
    ensures
        spec_ticked(s.push(e), dt_ms) == spec_ticked(s, dt_ms)
            + (if e.elapsed_ms + dt_ms < SHAKE_DURATION_MS {
                seq![ShakeEnvelope { elapsed_ms: (e.elapsed_ms + dt_ms) as u64, ..e }]
            } else {
                Seq::<ShakeEnvelope>::empty()
            }),
    decreases s.len(),
{
    let tail = if e.elapsed_ms + dt_ms < SHAKE_DURATION_MS {
        seq![ShakeEnvelope { elapsed_ms: (e.elapsed_ms + dt_ms) as u64, ..e }]
    } else {
        Seq::<ShakeEnvelope>::empty()
    };
    if s.len() == 0 {
        assert(s.push(e).drop_first() =~= Seq::<ShakeEnvelope>::empty());
        assert(s.push(e)[0] == e);
        assert(spec_ticked(s.push(e).drop_first(), dt_ms) =~= Seq::<ShakeEnvelope>::empty());
        assert(spec_ticked(s.push(e), dt_ms) =~= tail);
        assert(spec_ticked(s, dt_ms) + tail =~= tail);
    } else {
        assert(s.push(e).drop_first() =~= s.drop_first().push(e));
        lemma_spec_ticked_snoc(s.drop_first(), e, dt_ms);
        assert(s.push(e)[0] == s[0]);
        assert(spec_ticked(s.push(e), dt_ms) =~= spec_ticked(s, dt_ms) + tail);
    }
}

impl ShakeState {
    /// Every stored envelope is valid.
    pub open spec fn wf(&self) -> bool {
        forall|i: int| 0 <= i < self.envelopes@.len()
            ==> valid_envelope(#[trigger] self.envelopes@[i])
    }

    /// No shakes yet.
    pub fn new() -> (r: ShakeState)
        ensures
            r.envelopes@.len() == 0,
            r.wf(),
    {
        ShakeState { envelopes: Vec::new() }
    }

    /// Starts a one-second envelope of amplitude `(amp_x, amp_y)`.
    pub fn add(&mut self, amp_x: i64, amp_y: i64)
        requires
            old(self).wf(),
            -COORD_LIMIT <= amp_x <= COORD_LIMIT,
            -COORD_LIMIT <= amp_y <= COORD_LIMIT,
        ensures
            final(self).wf(),
            final(self).envelopes@ == old(self).envelopes@.push(ShakeEnvelope {
                amp_x,
                amp_y,
                elapsed_ms: 0,
            }),
    {
        self.envelopes.push(ShakeEnvelope { amp_x, amp_y, elapsed_ms: 0 });
    }

    /// Advances every envelope by `dt_ms` and removes the expired ones.
    pub fn tick(&mut self, dt_ms: u64)
        requires
            old(self).wf(),
            dt_ms <= SHAKE_DURATION_MS,
        ensures
            final(self).wf(),
            final(self).envelopes@ == spec_ticked(old(self).envelopes@, dt_ms),
    {
        let n = self.envelopes.len();
        let mut kept: Vec<ShakeEnvelope> = Vec::new();
        let mut i: usize = 0;
        while i < n
            invariant
                old(self).wf(),
                dt_ms <= SHAKE_DURATION_MS,
                n == old(self).envelopes@.len(),
                self.envelopes@ == old(self).envelopes@,
                i <= n,
                kept@ == spec_ticked(old(self).envelopes@.subrange(0, i as int), dt_ms),
                forall|k: int| 0 <= k < kept@.len() ==> valid_envelope(#[trigger] kept@[k]),
            decreases n - i,
        {
            let e = self.envelopes[i];
            proof {
                assert(old(self).envelopes@.subrange(0, i + 1)
                    =~= old(self).envelopes@.subrange(0, i as int).push(e));
                lemma_spec_ticked_snoc(old(self).envelopes@.subrange(0, i as int), e, dt_ms);
            }
            let advanced = e.elapsed_ms + dt_ms;
            if advanced < SHAKE_DURATION_MS {
                kept.push(ShakeEnvelope { elapsed_ms: advanced, ..e });
            }
            i = i + 1;
        }
        proof {
            assert(old(self).envelopes@.subrange(0, n as int) =~= old(self).envelopes@);
        }
        self.envelopes = kept;
    }

    /// The bottle's downward offset from its origin: the shake scale times
    /// the largest bell response among the active envelopes.
    pub fn offset_y(&self, shake_k: i64) -> (r: i64)
        requires
            self.wf(),
            0 <= shake_k <= COORD_LIMIT,
        ensures
            r == spec_shake_offset(self.envelopes@, shake_k as int),
            0 <= r <= shake_k,
    {
        let n = self.envelopes.len();
        let mut best: u64 = 0;
        let mut i: usize = 0;
        while i < n
            invariant
                self.wf(),
                n == self.envelopes@.len(),
                i <= n,
                best == max_bell(self.envelopes@.subrange(0, i as int)),
                best <= BELL_PEAK_MICRO,
            decreases n - i,
        {
            let e = self.envelopes[i];
            let mag: u64 = if e.amp_y < 0 { (-e.amp_y) as u64 } else { e.amp_y as u64 };
            proof {
                assert(mag * e.elapsed_ms <= 1_000_000_000u64 * 1000u64) by (nonlinear_arith)
                    requires 0 <= mag <= 1_000_000_000u64, e.elapsed_ms < 1000u64;
            }
            let scaled: u64 = mag * e.elapsed_ms / 1000;
            let arg: i64 = if e.amp_y < 0 { -(scaled as i64) } else { scaled as i64 };
            let v = bell_micro(arg);
            proof {
                let pre = self.envelopes@.subrange(0, i as int);
                let post = self.envelopes@.subrange(0, i + 1);
                assert(post.drop_last() =~= pre);
                assert(post.last() == e);
                assert(arg as int == envelope_arg(e));
            }
            if v > best {
                best = v;
            }
            i = i + 1;
        }
        proof {
            assert(self.envelopes@.subrange(0, n as int) =~= self.envelopes@);
            assert(shake_k * best <= 1_000_000_000int * 398_942int) by (nonlinear_arith)
                requires 0 <= shake_k <= 1_000_000_000int, 0 <= best <= 398_942int;
            assert(0 <= shake_k * best) by (nonlinear_arith)
                requires 0 <= shake_k, 0 <= best;
            vstd::arithmetic::div_mod::lemma_div_pos_is_pos(shake_k as int * best as int,
                1_000_000);
            assert(shake_k * best <= shake_k * 1_000_000) by (nonlinear_arith)
                requires 0 <= shake_k, 0 <= best <= 1_000_000int;
            vstd::arithmetic::div_mod::lemma_div_is_ordered(shake_k as int * best as int,
                shake_k as int * 1_000_000, 1_000_000);
            vstd::arithmetic::div_mod::lemma_div_multiples_vanish(shake_k as int, 1_000_000);
            assert(shake_k as int * 1_000_000 == 1_000_000 * shake_k as int) by (nonlinear_arith);
        }
        (((shake_k as u64) * best) / 1_000_000) as i64
    }
}

} // verus!
