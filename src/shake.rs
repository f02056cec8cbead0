use vstd::prelude::*;

use crate::timer::cumulative;
use crate::units::NANOS_PER_SECOND;

verus! {

/// Distance of each swing from the centre: 7 px, in millionths of a pixel.
pub const SHAKE_AMPLITUDE: i64 = 7_000_000;

/// Speed of the camera toward its target: 130 px/s, in millionths of a
/// pixel per second.
pub const SHAKE_SPEED: u64 = 130_000_000;

/// Distance under which the camera counts as arrived: 0.25 px.
pub const ARRIVAL_THRESHOLD: i64 = 250_000;

/// Time left of an impulse after a tick of `dt`, stopping at zero.
pub open spec fn remaining_after(r: u64, dt: u64) -> u64 {
    if r > dt {
        (r - dt) as u64
    } else {
        0
    }
}

/// The impulses of `q` still running (time left above zero), each with
/// `dt` taken off, in order.
pub open spec fn drained(q: Seq<u64>, dt: u64) -> Seq<u64>
    decreases q.len(),
{
    if q.len() == 0 {
        Seq::empty()
    } else {
        let rest = drained(q.drop_last(), dt);
        if q.last() > 0 {
            rest.push(remaining_after(q.last(), dt))
        } else {
            rest
        }
    }
}

/// Every impulse of `q` with `dt` taken off.
pub open spec fn decremented(q: Seq<u64>, dt: u64) -> Seq<u64>
    decreases q.len(),
{
    if q.len() == 0 {
        Seq::empty()
    } else {
        decremented(q.drop_last(), dt).push(remaining_after(q.last(), dt))
    }
}

/// How far the camera moves in a tick of `dt` nanoseconds.
pub open spec fn step_spec(dt: u64) -> int {
    dt * SHAKE_SPEED / NANOS_PER_SECOND as int
}

/// Where the camera heads: to the side given by `positive` while some
/// impulse is queued, back to the centre once none is.
pub open spec fn target_spec(queued: bool, positive: bool) -> int {
    if !queued {
        0
    } else if positive {
        SHAKE_AMPLITUDE as int
    } else {
        -SHAKE_AMPLITUDE
    }
}

pub open spec fn abs(v: int) -> int {
    if v < 0 {
        -v
    } else {
        v
    }
}

pub open spec fn min(a: int, b: int) -> int {
    if a < b {
        a
    } else {
        b
    }
}

/// Whether a camera at `offset` counts as arrived at `target`.
pub open spec fn arrived(offset: int, target: int) -> bool {
    abs(target - offset) < ARRIVAL_THRESHOLD
}

/// Where a camera at `offset` heading for `target` is after a tick of `dt`:
/// on arriving it snaps to the target; otherwise it moves toward it by one
/// step of `SHAKE_SPEED`, and no further than the target.
pub open spec fn moved(offset: int, target: int, dt: u64) -> int {
    if arrived(offset, target) {
        target
    } else if target < offset {
        offset - min(step_spec(dt), offset - target)
    } else {
        offset + min(step_spec(dt), target - offset)
    }
}

/// Queue, offset and heading after one tick of `dt` in which `impulses`
/// arrive: the expired impulses leave, the new ones join, all lose `dt`;
/// then the camera moves, and turns to the other side when it arrives.
pub open spec fn shaken(
    queue: Seq<u64>,
    offset: int,
    positive: bool,
    dt: u64,
    impulses: Seq<u64>,
) -> (Seq<u64>, int, bool) {
    let q = drained(queue, dt) + decremented(impulses, dt);
    let target = target_spec(q.len() > 0, positive);
    (
        q,
        moved(offset, target, dt),
        if arrived(offset, target) {
            !positive
        } else {
            positive
        },
    )
}

/// The camera's horizontal shake: queued impulses (nanoseconds left), the
/// offset from the centre in millionths of a pixel, and the side it heads to
/// next.
#[derive(Debug)]
pub struct CameraShake {
    pub queue: Vec<u64>,
    pub offset: i64,
    pub positive: bool,
}

impl CameraShake {
    pub open spec fn wf(&self) -> bool {
        -SHAKE_AMPLITUDE <= self.offset <= SHAKE_AMPLITUDE
    }

    pub fn new() -> (r: CameraShake)
        ensures
            r.wf(),
            r.queue@ == Seq::<u64>::empty(),
            r.offset == 0,
            r.positive,
    {
        CameraShake { queue: Vec::new(), offset: 0, positive: true }
    }

    /// One tick: impulses that ran out are dropped, `impulses` join the
    /// queue, every impulse loses `dt`; then the camera heads toward its
    /// target at `SHAKE_SPEED`, stopping at the target. On arriving (closer
    /// than `ARRIVAL_THRESHOLD`) it snaps to the target and turns to the
    /// other side.
    pub fn tick(&mut self, dt: u64, impulses: &Vec<u64>)
        requires
            old(self).wf(),
        ensures
            final(self).wf(),
            (final(self).queue@, final(self).offset as int, final(self).positive) == shaken(
                old(self).queue@,
                old(self).offset as int,
                old(self).positive,
                dt,
                impulses@,
            ),
    {
        let ghost old_queue = self.queue@;
        let mut kept: Vec<u64> = Vec::new();
        let n = self.queue.len();
        let mut i: usize = 0;
        while i < n
            invariant
                n == old_queue.len(),
                self.queue@ == old_queue,
                0 <= i <= n,
                kept@ == drained(old_queue.take(i as int), dt),
            decreases n - i,
        {
            proof {
                assert(old_queue.take(i + 1).drop_last() =~= old_queue.take(i as int));
            }
            let r = self.queue[i];
            if r > 0 {
                kept.push(if r > dt {
                    r - dt
                } else {
                    0
                });
            }
            i = i + 1;
        }
        proof {
            assert(old_queue.take(n as int) =~= old_queue);
        }
        let ghost base = kept@;
        let m = impulses.len();
        let mut j: usize = 0;
        while j < m
            invariant
                m == impulses@.len(),
                0 <= j <= m,
                kept@ == base + decremented(impulses@.take(j as int), dt),
            decreases m - j,
        {
            proof {
                assert(impulses@.take(j + 1).drop_last() =~= impulses@.take(j as int));
            }
            let r = impulses[j];
            kept.push(if r > dt {
                r - dt
            } else {
                0
            });
            j = j + 1;
            proof {
                assert(kept@ =~= base + decremented(impulses@.take(j as int), dt));
            }
        }
        proof {
            assert(impulses@.take(m as int) =~= impulses@);
        }
        self.queue = kept;
        let target: i64 = if self.queue.len() == 0 {
            0
        } else if self.positive {
            SHAKE_AMPLITUDE
        } else {
            -SHAKE_AMPLITUDE
        };
        let gap: i64 = target - self.offset;
        proof {
            assert(dt * 130_000_000 <= 0xffff_ffff_ffff_ffff * 130_000_000) by (nonlinear_arith)
                requires
                    dt <= 0xffff_ffff_ffff_ffff,
            ;
        }
        let step: u128 = dt as u128 * SHAKE_SPEED as u128 / NANOS_PER_SECOND as u128;
        if -ARRIVAL_THRESHOLD < gap && gap < ARRIVAL_THRESHOLD {
            self.offset = target;
            self.positive = !self.positive;
        } else if gap < 0 {
            let distance: u128 = (-gap) as u128;
            let travel: u128 = if step < distance {
                step
            } else {
                distance
            };
            self.offset = self.offset - travel as i64;
        } else {
            let distance: u128 = gap as u128;
            let travel: u128 = if step < distance {
                step
            } else {
                distance
            };
            self.offset = self.offset + travel as i64;
        }
    }
}

/// The state after the first `n` ticks of `dts` in which no impulse arrives.
pub open spec fn quiet_run(s: (Seq<u64>, int, bool), dts: Seq<u64>, n: nat) -> (
    Seq<u64>,
    int,
    bool,
)
    decreases n,
{
    if n == 0 {
        s
    } else {
        let p = quiet_run(s, dts, (n - 1) as nat);
        shaken(p.0, p.1, p.2, dts[n - 1], Seq::empty())
    }
}

/// Time left of an impulse of length `r` once `b` has passed, stopping at zero.
pub open spec fn left_after(r: u64, b: int) -> u64 {
    if r > b {
        (r - b) as u64
    } else {
        0
    }
}

/// The impulses of `q` longer than `a`, in order, each with `b` taken off.
pub open spec fn pending(q: Seq<u64>, a: int, b: int) -> Seq<u64>
    decreases q.len(),
{
    if q.len() == 0 {
        Seq::empty()
    } else {
        let rest = pending(q.drop_last(), a, b);
        if q.last() > a {
            rest.push(left_after(q.last(), b))
        } else {
            rest
        }
    }
}

proof fn lemma_decremented_pending(q: Seq<u64>, dt: u64)
    ensures
        decremented(q, dt) == pending(q, -1, dt as int),
    decreases q.len(),
{
    if q.len() > 0 {
        lemma_decremented_pending(q.drop_last(), dt);
    }
}

proof fn lemma_drained_pending(q: Seq<u64>, a: int, b: int, dt: u64)
    requires
        a <= b,
        0 <= b,
    ensures
        drained(pending(q, a, b), dt) == pending(q, b, b + dt),
    decreases q.len(),
{
    if q.len() > 0 {
        lemma_drained_pending(q.drop_last(), a, b, dt);
        let rest = pending(q.drop_last(), a, b);
        if q.last() > a {
            assert(rest.push(left_after(q.last(), b)).drop_last() =~= rest);
        }
    }
}

proof fn lemma_pending_len(q: Seq<u64>, a: int, b: int)
    ensures
        pending(q, a, b).len() > 0 <==> exists|i: int| 0 <= i < q.len() && #[trigger] q[i] > a,
    decreases q.len(),
{
    if q.len() > 0 {
        let t = q.drop_last();
        lemma_pending_len(t, a, b);
        if exists|i: int| 0 <= i < t.len() && #[trigger] t[i] > a {
            let i = choose|i: int| 0 <= i < t.len() && #[trigger] t[i] > a;
            assert(q[i] == t[i]);
        }
        if exists|i: int| 0 <= i < q.len() && #[trigger] q[i] > a {
            let i = choose|i: int| 0 <= i < q.len() && #[trigger] q[i] > a;
            if i < t.len() {
                assert(t[i] == q[i]);
            }
        }
    }
}

proof fn lemma_quiet_queue(offset: int, positive: bool, first: u64, impulses: Seq<u64>, dts: Seq<
    u64,
>, k: nat)
    requires
        k <= dts.len(),
    ensures
        quiet_run(shaken(Seq::empty(), offset, positive, first, impulses), dts, k).0 == pending(
            impulses,
            if k == 0 {
                -1
            } else {
                first + cumulative(dts, (k - 1) as nat)
            },
            first + cumulative(dts, k),
        ),
    decreases k,
{
    if k == 0 {
        lemma_decremented_pending(impulses, first);
        assert(drained(Seq::<u64>::empty(), first) + decremented(impulses, first) =~= decremented(
            impulses,
            first,
        ));
    } else {
        lemma_quiet_queue(offset, positive, first, impulses, dts, (k - 1) as nat);
        let a = if k == 1 {
            -1
        } else {
            first + cumulative(dts, (k - 2) as nat)
        };
        lemma_cumulative_nonneg(dts, (k - 1) as nat);
        lemma_drained_pending(impulses, a, first + cumulative(dts, (k - 1) as nat), dts[k - 1]);
        let q = pending(impulses, a, first + cumulative(dts, (k - 1) as nat));
        assert(drained(q, dts[k - 1]) + decremented(Seq::<u64>::empty(), dts[k - 1]) =~= drained(
            q,
            dts[k - 1],
        ));
    }
}

proof fn lemma_cumulative_nonneg(dts: Seq<u64>, n: nat)
    ensures
        0 <= cumulative(dts, n),
        n > 0 ==> cumulative(dts, (n - 1) as nat) <= cumulative(dts, n),
    decreases n,
{
    if n > 0 {
        lemma_cumulative_nonneg(dts, (n - 1) as nat);
    }
}

/// Impulses pushed onto an empty queue on a tick of `first`, with no more
/// arriving on the `k` ticks of `dts` after it: the queue then holds exactly
/// the impulses longer than the time that had passed before the last tick,
/// each with all the time passed taken off. So the queue stays non-empty
/// while the longest impulse still has time left at the start of a tick,
/// and is empty from the first tick that starts after it ran out.
pub proof fn lemma_queue_lifetime(
    offset: int,
    positive: bool,
    first: u64,
    impulses: Seq<u64>,
    dts: Seq<u64>,
    k: nat,
)
    requires
        1 <= k <= dts.len(),
    ensures
        ({
            let q = quiet_run(shaken(Seq::empty(), offset, positive, first, impulses), dts, k).0;
            let before = first + cumulative(dts, (k - 1) as nat);
            &&& q == pending(impulses, before, first + cumulative(dts, k))
            &&& q.len() > 0 <==> exists|i: int| 0 <= i < impulses.len() && #[trigger] impulses[i]
                > before
        }),
{
    lemma_quiet_queue(offset, positive, first, impulses, dts, k);
    lemma_pending_len(impulses, first + cumulative(dts, (k - 1) as nat), first + cumulative(dts, k));
}

/// With the queue empty and no impulse arriving, the camera comes back to
/// the centre and stays there: after any `n` ticks that each move it by at
/// least `s > 0`, with `n · s` at least its distance from the centre, its
/// offset is 0 and the queue is still empty.
pub proof fn lemma_relaxes_to_centre(offset: int, positive: bool, dts: Seq<u64>, s: int, n: nat)
    requires
        n <= dts.len(),
        s > 0,
        forall|i: int| 0 <= i < dts.len() ==> step_spec(#[trigger] dts[i]) >= s,
        n * s >= abs(offset),
    ensures
        quiet_run((Seq::empty(), offset, positive), dts, n).1 == 0,
        quiet_run((Seq::empty(), offset, positive), dts, n).0 == Seq::<u64>::empty(),
{
    lemma_relax_bound(offset, positive, dts, s, n);
}

proof fn lemma_relax_bound(offset: int, positive: bool, dts: Seq<u64>, s: int, n: nat)
    requires
        n <= dts.len(),
        s > 0,
        forall|i: int| 0 <= i < dts.len() ==> step_spec(#[trigger] dts[i]) >= s,
    ensures
        quiet_run((Seq::empty(), offset, positive), dts, n).0 == Seq::<u64>::empty(),
        abs(quiet_run((Seq::empty(), offset, positive), dts, n).1) <= (if abs(offset) - n * s
            > 0 {
            abs(offset) - n * s
        } else {
            0
        }),
    decreases n,
{
    if n > 0 {
        lemma_relax_bound(offset, positive, dts, s, (n - 1) as nat);
        let p = quiet_run((Seq::empty(), offset, positive), dts, (n - 1) as nat);
        let dt = dts[n - 1];
        assert(drained(p.0, dt) + decremented(Seq::<u64>::empty(), dt) =~= Seq::<u64>::empty());
        assert(n * s == (n - 1) * s + s) by (nonlinear_arith);
        assert(step_spec(dt) >= s);
    }
}

} // verus!
