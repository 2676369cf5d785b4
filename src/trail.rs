//! Fading trail markers: stamped at the bodies' positions on a fixed cadence,
//! counted down once per cycle, and removed when the count reaches zero.
use vstd::prelude::*;
use crate::vector::Vec3;
use crate::body::{Body, Role};

verus! {

/// An inert snapshot of where a body was. Its render scale is
/// `remaining / length`, shrinking by `1 / length` per cycle.
#[derive(Clone, Copy, Debug, PartialEq, Eq, Structural)]
pub struct TrailMarker {
    pub pos: Vec3,
    pub radius: u64,
    pub remaining: u32,
    pub length: u32,
}

impl TrailMarker {
    /// A live marker: between one and `length` cycles left.
    pub open spec fn live(self) -> bool {
        1 <= self.remaining <= self.length
    }

    /// The marker after one more cycle, whether or not it is still live.
    pub open spec fn aged(self) -> TrailMarker {
        TrailMarker { remaining: (self.remaining - 1) as u32, ..self }
    }

    /// A fresh marker with the whole lifetime `length` ahead of it.
    pub fn spawn(pos: Vec3, radius: u64, length: u32) -> (r: TrailMarker)
        requires
            length >= 1,
        ensures
            r == (TrailMarker { pos, radius, remaining: length, length }),
            r.live(),
    {
        TrailMarker { pos, radius, remaining: length, length }
    }

    /// The render scale as a fraction `(numerator, denominator)`.
    pub fn scale(&self) -> (r: (u32, u32))
        ensures
            r == (self.remaining, self.length),
    {
        (self.remaining, self.length)
    }
}

/// Every marker of `ms` is live.
pub open spec fn all_live(ms: Seq<TrailMarker>) -> bool {
    forall|k: int| 0 <= k < ms.len() ==> (#[trigger] ms[k]).live()
}

/// The markers of `ms` after one cycle: each counted down, those that reach
/// zero gone, the others in their order.
pub open spec fn decay_all(ms: Seq<TrailMarker>) -> Seq<TrailMarker>
    decreases ms.len(),
{
    if ms.len() == 0 {
        ms
    } else {
        let last = ms.last();
        decay_all(ms.drop_last()) + if last.remaining > 1 {
            seq![last.aged()]
        } else {
            Seq::<TrailMarker>::empty()
        }
    }
}

/// The markers of `ms` after `k` cycles.
pub open spec fn decay_times(ms: Seq<TrailMarker>, k: nat) -> Seq<TrailMarker>
    decreases k,
{
    if k == 0 {
        ms
    } else {
        decay_times(decay_all(ms), (k - 1) as nat)
    }
}

/// The markers that the bodies `bs` stamp with lifetime `length`: one per
/// planet, at its position and with its radius, in the bodies' order.
pub open spec fn stamps(bs: Seq<Body>, length: u32) -> Seq<TrailMarker>
    decreases bs.len(),
{
    if bs.len() == 0 {
        Seq::<TrailMarker>::empty()
    } else {
        let b = bs.last();
        stamps(bs.drop_last(), length) + if b.role == Role::Planet {
            seq![TrailMarker { pos: b.pos, radius: b.radius, remaining: length, length }]
        } else {
            Seq::<TrailMarker>::empty()
        }
    }
}

/// Whether a tick numbered `frame` stamps trails when they are stamped every
/// `period` ticks.
pub fn is_trail_tick(frame: u64, period: u64) -> (r: bool)
    requires
        period >= 1,
    ensures
        r == (frame % period == 0),
{
    frame % period == 0
}

/// Counts every marker down by one cycle and drops those that expire; returns
/// how many expired.
pub fn decay_trails(markers: &mut Vec<TrailMarker>) -> (expired: usize)
    ensures
        final(markers)@ == decay_all(old(markers)@),
        expired + final(markers).len() == old(markers).len(),
        all_live(old(markers)@) ==> all_live(final(markers)@),
{
    let ghost before = markers@;
    let mut kept: Vec<TrailMarker> = Vec::new();
    let mut i: usize = 0;
    while i < markers.len()
        invariant
            markers@ == before,
            i <= markers.len(),
            kept@ == decay_all(before.take(i as int)),
            kept.len() <= i,
            all_live(before) ==> all_live(kept@),
        decreases markers.len() - i,
    {
        let m = markers[i];
        assert(before.take(i + 1).drop_last() == before.take(i as int));
        if m.remaining > 1 {
            kept.push(TrailMarker { remaining: m.remaining - 1, ..m });
        }
        i = i + 1;
    }
    assert(before.take(before.len() as int) == before);
    let expired = markers.len() - kept.len();
    *markers = kept;
    expired
}

/// Stamps a fresh marker at every planet's position.
pub fn spawn_trails(bodies: &Vec<Body>, markers: &mut Vec<TrailMarker>, length: u32)
    requires
        length >= 1,
    ensures
        final(markers)@ == old(markers)@ + stamps(bodies@, length),
        all_live(old(markers)@) ==> all_live(final(markers)@),
{
    let ghost before = markers@;
    let mut i: usize = 0;
    while i < bodies.len()
        invariant
            length >= 1,
            i <= bodies.len(),
            markers@ == before + stamps(bodies@.take(i as int), length),
            all_live(before) ==> all_live(markers@),
        decreases bodies.len() - i,
    {
        let b = bodies[i];
        assert(bodies@.take(i + 1).drop_last() == bodies@.take(i as int));
        match b.role {
            Role::Planet => {
                markers.push(TrailMarker::spawn(b.pos, b.radius, length));
            },
            Role::Star => {},
        }
        assert(markers@ == before + stamps(bodies@.take(i + 1), length));
        i = i + 1;
    }
    assert(bodies@.take(bodies@.len() as int) == bodies@);
}

/// A fresh marker with lifetime `length` outlives exactly `length` cycles:
/// after `k < length` cycles it is still there with `length - k` left, so its
/// render scale is `(length - k) / length`; after `length` cycles it is gone.
pub proof fn lemma_trail_lifecycle(m: TrailMarker, k: nat)
    requires
        m.remaining == m.length,
        m.length >= 1,
        k <= m.length,
    ensures
        k < m.length ==> decay_times(seq![m], k) == seq![
            TrailMarker { remaining: (m.length - k) as u32, ..m },
        ],
        k == m.length ==> decay_times(seq![m], k) == Seq::<TrailMarker>::empty(),
    decreases k,
{
    lemma_decay_single(m, k);
}

proof fn lemma_decay_single(m: TrailMarker, k: nat)
    requires
        1 <= m.remaining,
        k <= m.remaining,
    ensures
        k < m.remaining ==> decay_times(seq![m], k) == seq![
            TrailMarker { remaining: (m.remaining - k) as u32, ..m },
        ],
        k == m.remaining ==> decay_times(seq![m], k) == Seq::<TrailMarker>::empty(),
    decreases k,
{
    if k > 0 {
        let s = seq![m];
        assert(s.drop_last() == Seq::<TrailMarker>::empty());
        assert(decay_all(Seq::<TrailMarker>::empty()) == Seq::<TrailMarker>::empty());
        if m.remaining > 1 {
            assert(decay_all(s) == seq![m.aged()]);
            lemma_decay_single(m.aged(), (k - 1) as nat);
            assert(TrailMarker { remaining: (m.aged().remaining - (k - 1)) as u32, ..m.aged() }
                == TrailMarker { remaining: (m.remaining - k) as u32, ..m });
        } else {
            assert(decay_all(s) == Seq::<TrailMarker>::empty());
            lemma_decay_empty((k - 1) as nat);
        }
    }
}

proof fn lemma_decay_empty(k: nat)
    ensures
        decay_times(Seq::<TrailMarker>::empty(), k) == Seq::<TrailMarker>::empty(),
    decreases k,
{
    if k > 0 {
        assert(decay_all(Seq::<TrailMarker>::empty()) == Seq::<TrailMarker>::empty());
        lemma_decay_empty((k - 1) as nat);
    }
}

} // verus!
