use vstd::prelude::*;

use crate::chunk_manager::ChunkManager;

verus! {

/// Longest frame, in nanoseconds, that one call may catch up on.
pub const MAX_FRAME_NANOS: u64 = 250_000_000;

/// Fixed-timestep scheduling over a clock read in nanoseconds: each call
/// takes the new reading and says how many ticks of length `dt` to
/// simulate; what is left over, `accumulator / dt`, is the fraction by which
/// the displayed state lies past the previous tick.
pub struct FixedTimestep {
    pub dt: u64,
    pub t: u64,
    pub last_time: u64,
    pub accumulator: u64,
}

/// The time a call at clock reading `now` catches up on: the time since the
/// last reading, zero if the clock went back, at most `MAX_FRAME_NANOS`.
pub open spec fn frame_time(last: int, now: int) -> int {
    if now <= last {
        0
    } else if now - last > MAX_FRAME_NANOS {
        MAX_FRAME_NANOS as int
    } else {
        now - last
    }
}

impl FixedTimestep {
    pub open spec fn wf(&self) -> bool {
        0 < self.dt && self.accumulator < self.dt
    }

    pub fn new(dt: u64, now: u64) -> (r: FixedTimestep)
        requires
            0 < dt,
        ensures
            r.wf(),
            r.dt == dt,
            r.t == 0,
            r.last_time == now,
            r.accumulator == 0,
    {
        FixedTimestep { dt, t: 0, last_time: now, accumulator: 0 }
    }

    /// Takes the clock reading `now` and returns how many ticks to simulate.
    pub fn advance(&mut self, now: u64) -> (ticks: u64)
        requires
            old(self).wf(),
            old(self).t + MAX_FRAME_NANOS + old(self).dt <= u64::MAX,
        ensures
            final(self).wf(),
            final(self).dt == old(self).dt,
            final(self).last_time == now,
            ({
                let total = old(self).accumulator + frame_time(old(self).last_time as int, now as int);
                &&& ticks == total / (old(self).dt as int)
                &&& final(self).accumulator == total % (old(self).dt as int)
                &&& final(self).t == old(self).t + ticks * old(self).dt
            }),
    {
        let frame = if now <= self.last_time {
            0
        } else if now - self.last_time > MAX_FRAME_NANOS {
            MAX_FRAME_NANOS
        } else {
            now - self.last_time
        };
        self.last_time = now;
        self.accumulator = self.accumulator + frame;
        let ghost total = self.accumulator as int;
        let ghost t0 = old(self).t as int;
        let ghost dt0 = old(self).dt as int;
        let mut ticks: u64 = 0;
        while self.accumulator >= self.dt
            invariant
                0 < self.dt,
                self.dt == old(self).dt,
                self.last_time == now,
                total == self.accumulator + ticks * self.dt,
                t0 == old(self).t,
                dt0 == old(self).dt,
                self.t == t0 + ticks * self.dt,
                total <= dt0 + MAX_FRAME_NANOS,
                t0 + MAX_FRAME_NANOS + dt0 <= u64::MAX,
            decreases self.accumulator,
        {
            assert(self.t + self.dt <= u64::MAX) by (nonlinear_arith)
                requires
                    self.t == t0 + ticks * self.dt,
                    total == self.accumulator + ticks * self.dt,
                    self.accumulator >= self.dt,
                    total <= dt0 + MAX_FRAME_NANOS,
                    t0 + MAX_FRAME_NANOS + dt0 <= u64::MAX,
                    self.dt == dt0,
            ;
            assert(ticks < u64::MAX) by (nonlinear_arith)
                requires
                    total == self.accumulator + ticks * self.dt,
                    self.accumulator >= self.dt,
                    self.dt > 0,
                    total <= u64::MAX,
            ;
            self.t = self.t + self.dt;
            self.accumulator = self.accumulator - self.dt;
            ticks = ticks + 1;
            assert(total == self.accumulator + ticks * self.dt) by (nonlinear_arith)
                requires
                    total == (self.accumulator + self.dt) + (ticks - 1) * self.dt,
            ;
        }
        proof {
            vstd::arithmetic::div_mod::lemma_fundamental_div_mod_converse(
                total,
                self.dt as int,
                ticks as int,
                self.accumulator as int,
            );
        }
        ticks
    }
}

impl ChunkManager {
    /// The first solid cell, in order of y, then z, then x, of the box of
    /// cells from `lo` to `hi` (both included), if there is one.
    pub fn first_solid_in_box(&self, lo: (i32, i32, i32), hi: (i32, i32, i32)) -> (r: Option<(i32, i32, i32)>)
        requires
            self.wf(),
        ensures
            match r {
                Some(c) => {
                    &&& lo.0 <= c.0 <= hi.0 && lo.1 <= c.1 <= hi.1 && lo.2 <= c.2 <= hi.2
                    &&& self.solid(c.0 as int, c.1 as int, c.2 as int)
                    &&& forall|x: int, y: int, z: int|
                        lo.0 <= x <= hi.0 && lo.1 <= y <= hi.1 && lo.2 <= z <= hi.2 && (y < c.1 || (y
                            == c.1 && (z < c.2 || (z == c.2 && x < c.0)))) ==> !#[trigger] self.solid(
                            x,
                            y,
                            z,
                        )
                },
                None => forall|x: int, y: int, z: int|
                    lo.0 <= x <= hi.0 && lo.1 <= y <= hi.1 && lo.2 <= z <= hi.2 ==> !#[trigger] self.solid(x, y, z),
            },
    {
        let mut y: i64 = lo.1 as i64;
        while y <= hi.1 as i64
            invariant
                self.wf(),
                lo.1 <= y <= hi.1 + 1 || (y == lo.1 && lo.1 > hi.1),
                forall|x: int, y2: int, z: int|
                    lo.0 <= x <= hi.0 && lo.1 <= y2 < y && lo.2 <= z <= hi.2 ==> !#[trigger] self.solid(x, y2, z),
            decreases hi.1 + 1 - y,
        {
            let mut z: i64 = lo.2 as i64;
            while z <= hi.2 as i64
                invariant
                    self.wf(),
                    lo.1 <= y <= hi.1,
                    lo.2 <= z <= hi.2 + 1 || (z == lo.2 && lo.2 > hi.2),
                    forall|x: int, y2: int, z2: int|
                        lo.0 <= x <= hi.0 && lo.1 <= y2 < y && lo.2 <= z2 <= hi.2 ==> !#[trigger] self.solid(x, y2, z2),
                    forall|x: int, z2: int|
                        lo.0 <= x <= hi.0 && lo.2 <= z2 < z ==> !#[trigger] self.solid(x, y as int, z2),
                decreases hi.2 + 1 - z,
            {
                let mut x: i64 = lo.0 as i64;
                while x <= hi.0 as i64
                    invariant
                        self.wf(),
                        lo.1 <= y <= hi.1,
                        lo.2 <= z <= hi.2,
                        lo.0 <= x <= hi.0 + 1 || (x == lo.0 && lo.0 > hi.0),
                        forall|x2: int, y2: int, z2: int|
                            lo.0 <= x2 <= hi.0 && lo.1 <= y2 < y && lo.2 <= z2 <= hi.2 ==> !#[trigger] self.solid(x2, y2, z2),
                        forall|x2: int, z2: int|
                            lo.0 <= x2 <= hi.0 && lo.2 <= z2 < z ==> !#[trigger] self.solid(x2, y as int, z2),
                        forall|x2: int| lo.0 <= x2 < x ==> !#[trigger] self.solid(x2, y as int, z as int),
                    decreases hi.0 + 1 - x,
                {
                    if self.is_solid_block_at(x as i32, y as i32, z as i32) {
                        return Some((x as i32, y as i32, z as i32));
                    }
                    x = x + 1;
                }
                z = z + 1;
            }
            y = y + 1;
        }
        None
    }
}

} // verus!
