//! Collision pairing: turns the raw contact pairs of one physics step into
//! the merge touches of that step.
//!
//! A raw contact survives when both entities are distinct live balls of the
//! same level; it is canonicalized to `(min, max)`.  Of all surviving pairs
//! that share a first id, only the earliest one fires — the deliberate
//! tie-break that keeps a ball from merging with two partners in one step —
//! and the emitted sequence is strictly sorted by first id, so it is
//! deterministic for a given contact list.

use vstd::prelude::*;
use crate::registry::{Ball, BallRegistry, distinct_ids, spec_ball, spec_has_ball};

verus! {

/// Both entities of `c` are distinct live balls of the same level.
pub open spec fn is_merge_contact(s: Seq<Ball>, c: (u64, u64)) -> bool {
    &&& c.0 != c.1
    &&& spec_has_ball(s, c.0)
    &&& spec_has_ball(s, c.1)
    &&& spec_ball(s, c.0).level == spec_ball(s, c.1).level
}

/// `c` with its smaller id first.
pub open spec fn canon_pair(c: (u64, u64)) -> (u64, u64) {
    if c.0 < c.1 {
        c
    } else {
        (c.1, c.0)
    }
}

/// The canonical same-level touches of a contact list, in contact order.
pub open spec fn filter_canon(s: Seq<Ball>, contacts: Seq<(u64, u64)>) -> Seq<(u64, u64)>
    decreases contacts.len(),
{
    if contacts.len() == 0 {
        Seq::empty()
    } else {
        let rest = filter_canon(s, contacts.drop_first());
        if is_merge_contact(s, contacts[0]) {
            seq![canon_pair(contacts[0])] + rest
        } else {
            rest
        }
    }
}

/// Some pair in `ps` has first id `f`.
pub open spec fn has_first(ps: Seq<(u64, u64)>, f: u64) -> bool {
    exists|i: int| 0 <= i < ps.len() && ps[i].0 == f
}

/// Partner of the earliest pair in `ps` whose first id is `f`.
pub open spec fn first_partner(ps: Seq<(u64, u64)>, f: u64) -> u64
    decreases ps.len(),
{
    if ps.len() == 0 {
        0
    } else if ps[0].0 == f {
        ps[0].1
    } else {
        first_partner(ps.drop_first(), f)
    }
}

/// Appending one contact extends the canonical touches by at most one pair.
pub proof fn lemma_filter_canon_snoc(s: Seq<Ball>, ps: Seq<(u64, u64)>, c: (u64, u64))
    ensures
        filter_canon(s, ps.push(c)) == filter_canon(s, ps) + (if is_merge_contact(s, c) {
            seq![canon_pair(c)]
        } else {
            Seq::<(u64, u64)>::empty()
        }),
    decreases ps.len(),
{
    let tail = if is_merge_contact(s, c) {
        seq![canon_pair(c)]
    } else {
        Seq::<(u64, u64)>::empty()
    };
    if ps.len() == 0 {
        assert(ps.push(c).drop_first() =~= Seq::<(u64, u64)>::empty());
        assert(ps.push(c)[0] == c);
        assert(filter_canon(s, ps.push(c).drop_first()) =~= Seq::<(u64, u64)>::empty());
        assert(filter_canon(s, ps.push(c)) =~= tail);
        assert(filter_canon(s, ps) + tail =~= tail);
    } else {
        assert(ps.push(c).drop_first() =~= ps.drop_first().push(c));
        lemma_filter_canon_snoc(s, ps.drop_first(), c);
        assert(ps.push(c)[0] == ps[0]);
        if is_merge_contact(s, ps[0]) {
            assert(filter_canon(s, ps.push(c))
                =~= filter_canon(s, ps) + tail);
        } else {
            assert(filter_canon(s, ps.push(c))
                =~= filter_canon(s, ps) + tail);
        }
    }
}

/// Every canonical touch is an ordered merge contact.
pub proof fn lemma_filter_canon_elems(s: Seq<Ball>, contacts: Seq<(u64, u64)>)
    ensures
        forall|k: int| 0 <= k < filter_canon(s, contacts).len() ==> {
            let p = #[trigger] filter_canon(s, contacts)[k];
            p.0 < p.1 && is_merge_contact(s, p)
        },
    decreases contacts.len(),
{
    if contacts.len() > 0 {
        lemma_filter_canon_elems(s, contacts.drop_first());
        let fcall = filter_canon(s, contacts);
        let rest = filter_canon(s, contacts.drop_first());
        if is_merge_contact(s, contacts[0]) {
            assert(fcall == seq![canon_pair(contacts[0])] + rest);
            assert forall|k: int| 0 <= k < fcall.len() implies {
                let p = #[trigger] fcall[k];
                p.0 < p.1 && is_merge_contact(s, p)
            } by {
                if k == 0 {
                    assert(fcall[0] == canon_pair(contacts[0]));
                } else {
                    assert(fcall[k] == rest[k - 1]);
                }
            };
        }
    }
}

/// `id` appears in some pair of `ps`.
pub open spec fn pair_names(ps: Seq<(u64, u64)>, id: u64) -> bool {
    exists|k: int| 0 <= k < ps.len() && ((#[trigger] ps[k]).0 == id || ps[k].1 == id)
}

/// Both ids of every canonical touch appear in the raw contact list.
pub proof fn lemma_filter_canon_ids(s: Seq<Ball>, contacts: Seq<(u64, u64)>)
    ensures
        forall|k: int| 0 <= k < filter_canon(s, contacts).len() ==> {
            let p = #[trigger] filter_canon(s, contacts)[k];
            pair_names(contacts, p.0) && pair_names(contacts, p.1)
        },
    decreases contacts.len(),
{
    if contacts.len() > 0 {
        lemma_filter_canon_ids(s, contacts.drop_first());
        let fcall = filter_canon(s, contacts);
        let rest = filter_canon(s, contacts.drop_first());
        assert forall|k: int| 0 <= k < fcall.len() implies {
            let p = #[trigger] fcall[k];
            pair_names(contacts, p.0) && pair_names(contacts, p.1)
        } by {
            if is_merge_contact(s, contacts[0]) && k == 0 {
                assert(fcall[0] == canon_pair(contacts[0]));
                assert(contacts[0].0 == fcall[0].0 || contacts[0].1 == fcall[0].0);
                assert(contacts[0].0 == fcall[0].1 || contacts[0].1 == fcall[0].1);
            } else {
                let k0 = if is_merge_contact(s, contacts[0]) { k - 1 } else { k };
                assert(fcall[k] == rest[k0]);
                assert(pair_names(contacts.drop_first(), rest[k0].0));
                let w = choose|w: int| 0 <= w < contacts.drop_first().len()
                    && (contacts.drop_first()[w].0 == rest[k0].0
                        || contacts.drop_first()[w].1 == rest[k0].0);
                assert(contacts[w + 1] == contacts.drop_first()[w]);
                let w2 = choose|w2: int| 0 <= w2 < contacts.drop_first().len()
                    && (contacts.drop_first()[w2].0 == rest[k0].1
                        || contacts.drop_first()[w2].1 == rest[k0].1);
                assert(contacts[w2 + 1] == contacts.drop_first()[w2]);
            }
        };
    }
}

/// A pair with no earlier occurrence of its first id is the one
/// `first_partner` names.
pub proof fn lemma_first_partner_at(ps: Seq<(u64, u64)>, k: int)
    requires
        0 <= k < ps.len(),
        forall|m: int| 0 <= m < k ==> ps[m].0 != ps[k].0,
    ensures
        has_first(ps, ps[k].0),
        first_partner(ps, ps[k].0) == ps[k].1,
    decreases ps.len(),
{
    if k == 0 {
    } else {
        lemma_first_partner_at(ps.drop_first(), k - 1);
    }
}

/// `first_partner` names the partner of an actual pair in `ps`.
pub proof fn lemma_first_partner_mem(ps: Seq<(u64, u64)>, f: u64)
    requires
        has_first(ps, f),
    ensures
        exists|k: int| 0 <= k < ps.len() && ps[k] == (f, first_partner(ps, f)),
    decreases ps.len(),
{
    if ps[0].0 == f {
        assert(ps[0] == (f, first_partner(ps, f)));
    } else {
        assert(has_first(ps.drop_first(), f)) by {
            let i = choose|i: int| 0 <= i < ps.len() && ps[i].0 == f;
            assert(ps.drop_first()[i - 1] == ps[i]);
        };
        lemma_first_partner_mem(ps.drop_first(), f);
        let k = choose|k: int| 0 <= k < ps.drop_first().len()
            && ps.drop_first()[k] == (f, first_partner(ps.drop_first(), f));
        assert(ps[k + 1] == (f, first_partner(ps, f)));
    }
}

/// The canonical same-level touches of `contacts`, in contact order.
fn filter_contacts(reg: &BallRegistry, contacts: &Vec<(u64, u64)>) -> (cand: Vec<(u64, u64)>)
    requires
        distinct_ids(reg.balls@),
    ensures
        cand@ == filter_canon(reg.balls@, contacts@),
        cand@.len() <= contacts@.len(),
{
    let ghost s = reg.balls@;
    let n = contacts.len();
    let mut cand: Vec<(u64, u64)> = Vec::new();
    let mut i: usize = 0;
    while i < n
        invariant
            distinct_ids(s),
            s == reg.balls@,
            n == contacts@.len(),
            i <= n,
            cand@ == filter_canon(s, contacts@.subrange(0, i as int)),
            cand@.len() <= i,
        decreases n - i,
    {
        let c = contacts[i];
        proof {
            assert(contacts@.subrange(0, i + 1) =~= contacts@.subrange(0, i as int).push(c));
            lemma_filter_canon_snoc(s, contacts@.subrange(0, i as int), c);
        }
        if c.0 != c.1 {
            let b0 = reg.get(c.0);
            let b1 = reg.get(c.1);
            match (b0, b1) {
                (Some(b0), Some(b1)) => {
                    if b0.level == b1.level {
                        let p = if c.0 < c.1 { c } else { (c.1, c.0) };
                        cand.push(p);
                    }
                },
                _ => {},
            }
        }
        i = i + 1;
    }
    proof {
        assert(contacts@.subrange(0, n as int) =~= contacts@);
    }
    cand
}

/// Position of `f` in the strictly sorted firsts of `out`: either the index
/// already holding `f`, or the index to insert at.
fn scan_firsts(out: &Vec<(u64, u64)>, f: u64) -> (r: (usize, bool))
    requires
        forall|k: int, j: int| 0 <= k < j < out@.len() ==> out@[k].0 < out@[j].0,
    ensures
        r.1 ==> (r.0 as int) < out@.len() && out@[r.0 as int].0 == f,
        !r.1 ==> {
            &&& r.0 <= out@.len()
            &&& forall|k: int| 0 <= k < r.0 as int ==> (#[trigger] out@[k]).0 < f
            &&& (r.0 as int) < out@.len() ==> out@[r.0 as int].0 > f
            &&& forall|k: int| 0 <= k < out@.len() ==> (#[trigger] out@[k]).0 != f
        },
{
    let on = out.len();
    let mut pos: usize = on;
    let mut dup: bool = false;
    let mut j: usize = 0;
    while j < on
        invariant_except_break
            pos == on,
            !dup,
        invariant
            on == out@.len(),
            j <= on,
            forall|k: int| 0 <= k < j ==> (#[trigger] out@[k]).0 < f,
            forall|k: int, j2: int| 0 <= k < j2 < out@.len() ==> out@[k].0 < out@[j2].0,
        ensures
            on == out@.len(),
            j <= on,
            dup ==> j < on && out@[j as int].0 == f && pos == j,
            !dup ==> forall|k: int| 0 <= k < pos ==> (#[trigger] out@[k]).0 < f,
            !dup ==> pos <= on,
            !dup && pos < on ==> out@[pos as int].0 > f,
        decreases on - j,
    {
        let g = out[j].0;
        if g == f {
            dup = true;
            pos = j;
            break;
        } else if g > f {
            pos = j;
            break;
        }
        j = j + 1;
    }
    proof {
        if !dup {
            assert forall|k: int| 0 <= k < out@.len() implies (#[trigger] out@[k]).0 != f by {
                if k >= pos as int && (pos as int) < out@.len() && k > pos as int {
                    assert(out@[pos as int].0 < out@[k].0);
                }
            };
        }
    }
    (pos, dup)
}

/// Keeps, of all pairs sharing a first id, the earliest one, and sorts the
/// survivors strictly by first id.
#[verifier::rlimit(100)]
fn dedup_by_first(cand: &Vec<(u64, u64)>) -> (out: Vec<(u64, u64)>)
    ensures
        forall|k: int, j: int| 0 <= k < j < out@.len() ==> out@[k].0 < out@[j].0,
        forall|k: int| 0 <= k < out@.len() ==> has_first(cand@, (#[trigger] out@[k]).0)
            && out@[k].1 == first_partner(cand@, out@[k].0),
        forall|m: int| 0 <= m < cand@.len() ==> has_first(out@, (#[trigger] cand@[m]).0),
        out@.len() <= cand@.len(),
{
    let ghost fc = cand@;
    let mut out: Vec<(u64, u64)> = Vec::new();
    // Ghost witnesses: where each emitted pair came from, and where each
    // processed pair's first id now lives.
    let ghost mut src: Seq<int> = Seq::empty();
    let ghost mut wit: Seq<int> = Seq::empty();
    let cn = cand.len();
    let mut m: usize = 0;
    while m < cn
        invariant
            cn == fc.len(),
            cand@ == fc,
            m <= cn,
            out@.len() <= m,
            src.len() == out@.len(),
            wit.len() == m,
            forall|k: int, j: int| 0 <= k < j < out@.len() ==> out@[k].0 < out@[j].0,
            forall|k: int| 0 <= k < out@.len()
                ==> 0 <= #[trigger] src[k] < m && fc[src[k]] == out@[k],
            forall|k: int| 0 <= k < out@.len()
                ==> (#[trigger] out@[k]).1 == first_partner(fc, out@[k].0),
            forall|mm: int| 0 <= mm < m
                ==> 0 <= #[trigger] wit[mm] < out@.len() && out@[wit[mm]].0 == fc[mm].0,
        decreases cn - m,
    {
        let p = cand[m];
        let (pos, dup) = scan_firsts(&out, p.0);
        if !dup {
            let ghost oldout = out@;
            let ghost oldsrc = src;
            let ghost oldwit = wit;
            out.insert(pos, p);
            proof {
                // No processed pair shares this first id, so `p` is the pair
                // `first_partner` names for it.
                assert forall|mm: int| 0 <= mm < m implies (#[trigger] fc[mm]).0 != p.0 by {
                    assert(oldout[oldwit[mm]].0 == fc[mm].0);
                };
                lemma_first_partner_at(fc, m as int);
                src = oldsrc.insert(pos as int, m as int);
                wit = oldwit.map_values(|w: int| if w >= pos as int { w + 1 } else { w }).push(
                    pos as int);
                assert forall|k: int, j: int| 0 <= k < j < out@.len() implies
                    out@[k].0 < out@[j].0 by {
                    let k0 = if k < pos as int { k } else { k - 1 };
                    let j0 = if j < pos as int { j } else { j - 1 };
                    if k == pos as int {
                        assert(out@[j] == oldout[j0] && j0 >= pos as int);
                    } else if j == pos as int {
                        assert(out@[k] == oldout[k0]);
                    } else {
                        assert(out@[k] == oldout[k0] && out@[j] == oldout[j0]);
                    }
                };
                assert forall|k: int| 0 <= k < out@.len() implies
                    0 <= #[trigger] src[k] < m + 1 && fc[src[k]] == out@[k]
                    && out@[k].1 == first_partner(fc, out@[k].0) by {
                    if k == pos as int {
                        assert(out@[k] == p && src[k] == m as int);
                    } else {
                        let k0 = if k < pos as int { k } else { k - 1 };
                        assert(out@[k] == oldout[k0] && src[k] == oldsrc[k0]);
                    }
                };
                assert forall|mm: int| 0 <= mm < m + 1 implies
                    0 <= #[trigger] wit[mm] < out@.len() && out@[wit[mm]].0 == fc[mm].0 by {
                    if mm < m {
                        let w0 = oldwit[mm];
                        if w0 >= pos as int {
                            assert(wit[mm] == w0 + 1 && out@[w0 + 1] == oldout[w0]);
                        } else {
                            assert(wit[mm] == w0 && out@[w0] == oldout[w0]);
                        }
                    } else {
                        assert(wit[mm] == pos as int && out@[pos as int] == p);
                    }
                };
            }
        } else {
            proof {
                wit = wit.push(pos as int);
            }
        }
        m = m + 1;
    }
    proof {
        assert forall|k: int| 0 <= k < out@.len() implies
            has_first(fc, (#[trigger] out@[k]).0) by {
            assert(fc[src[k]].0 == out@[k].0);
        };
        assert forall|mm: int| 0 <= mm < cand@.len() implies
            has_first(out@, (#[trigger] cand@[mm]).0) by {
            let w = wit[mm];
            assert(0 <= w < out@.len() && out@[w].0 == cand@[mm].0);
        };
    }
    out
}

/// In a touch list strictly sorted by first id, no two touches share a
/// first id.
pub proof fn lemma_touches_distinct_firsts(touches: Seq<(u64, u64)>)
    requires
        forall|k: int, j: int| 0 <= k < j < touches.len() ==> touches[k].0 < touches[j].0,
    ensures
        forall|k: int, j: int| 0 <= k < touches.len() && 0 <= j < touches.len() && k != j
            ==> touches[k].0 != touches[j].0,
{
}

/// The merge touches one physics step emits for the raw contact list
/// `contacts`: canonical same-level contacts, deduplicated so no two touches
/// share a first id (the earliest contact wins), strictly sorted by first id.
/// For a given registry and contact list the result is a function of its
/// inputs, so pairing is deterministic.
pub fn check_ball_collisions(reg: &BallRegistry, contacts: &Vec<(u64, u64)>)
    -> (touches: Vec<(u64, u64)>)
    requires
        distinct_ids(reg.balls@),
    ensures
        forall|k: int| 0 <= k < touches@.len() ==> (#[trigger] touches@[k]).0 < touches@[k].1,
        forall|k: int| 0 <= k < touches@.len()
            ==> is_merge_contact(reg.balls@, #[trigger] touches@[k]),
        forall|k: int, j: int| 0 <= k < j < touches@.len() ==> touches@[k].0 < touches@[j].0,
        forall|k: int| 0 <= k < touches@.len() ==> {
            let fc = filter_canon(reg.balls@, contacts@);
            &&& has_first(fc, (#[trigger] touches@[k]).0)
            &&& touches@[k].1 == first_partner(fc, touches@[k].0)
        },
        forall|m: int| 0 <= m < filter_canon(reg.balls@, contacts@).len()
            ==> has_first(touches@, (#[trigger] filter_canon(reg.balls@, contacts@)[m]).0),
        touches@.len() <= contacts@.len(),
{
    let ghost s = reg.balls@;
    let ghost fc = filter_canon(s, contacts@);
    let cand = filter_contacts(reg, contacts);
    let out = dedup_by_first(&cand);
    proof {
        lemma_filter_canon_elems(s, contacts@);
        assert forall|k: int| 0 <= k < out@.len() implies (#[trigger] out@[k]).0 < out@[k].1
            && is_merge_contact(s, out@[k]) by {
            lemma_first_partner_mem(fc, out@[k].0);
            let kk = choose|kk: int| 0 <= kk < fc.len()
                && fc[kk] == (out@[k].0, first_partner(fc, out@[k].0));
            assert(fc[kk].0 < fc[kk].1 && is_merge_contact(s, fc[kk]));
            assert(out@[k] == fc[kk]);
        };
    }
    out
}

} // verus!
