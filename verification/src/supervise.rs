//! The decisions of per-application capture while it runs: which processes get a capture stream
//! on each scan, when a problem is logged, how long a scan waits, and how much the mixer takes
//! from each buffer. Starting threads, sleeping and mixing samples happen around these.
use vstd::prelude::*;

verus! {

/// The most processes captured at once: one stream per process, so this caps the threads a
/// broadly matching pattern can start.
pub const MAX_APP_STREAMS: usize = 64;

/// The shortest pause between two scans for processes, in milliseconds.
pub const MIN_RESCAN_MS: u64 = 250;

/// The pause between two scans: the configured one, but at least `MIN_RESCAN_MS`.
pub fn rescan_interval_ms(configured: u64) -> (ms: u64)
    ensures
        ms == if configured < MIN_RESCAN_MS {
            MIN_RESCAN_MS
        } else {
            configured
        },
{
    if configured < MIN_RESCAN_MS {
        MIN_RESCAN_MS
    } else {
        configured
    }
}

/// The targets of one scan that get a stream, by position, and whether the scan ran into the
/// stream limit. `taken` holds the processes with a stream; targets are taken in order, a
/// process that has one is skipped, and the scan stops at the first new one once `max` streams
/// run.
pub open spec fn stream_plan(taken: Seq<u32>, targets: Seq<u32>, max: nat, i: nat) -> (Seq<nat>, bool)
    decreases targets.len() - i,
{
    if i >= targets.len() {
        (Seq::empty(), false)
    } else if taken.contains(targets[i as int]) {
        stream_plan(taken, targets, max, i + 1)
    } else if taken.len() >= max {
        (Seq::empty(), true)
    } else {
        let rest = stream_plan(taken.push(targets[i as int]), targets, max, i + 1);
        (seq![i].add(rest.0), rest.1)
    }
}

/// What the supervisor has already said, so that each problem is logged once: that listing the
/// processes failed (until it works again) and that the stream limit was reached.
#[derive(Debug, Clone, Copy, PartialEq, Eq, Structural)]
pub struct SupervisorState {
    pub announced_failure: bool,
    pub announced_limit: bool,
}

/// What one scan asks for: streams for these targets (by position), and which problems to log.
#[derive(Debug)]
pub struct ScanAction {
    pub start: Vec<usize>,
    pub log_limit: bool,
    pub log_failure: Option<String>,
}

/// Whether a process already has a stream.
fn has_pid(taken: &Vec<u32>, pid: u32) -> (b: bool)
    ensures
        b == taken@.contains(pid),
{
    let mut i: usize = 0;
    while i < taken.len()
        invariant
            i <= taken@.len(),
            forall|j: int| 0 <= j < i ==> taken@[j] != pid,
        decreases taken@.len() - i,
    {
        if taken[i] == pid {
            assert(taken@[i as int] == pid);
            return true;
        }
        i = i + 1;
    }
    false
}

/// The targets of one scan that get a stream, and whether the scan ran into the limit.
pub fn plan_streams(live: &Vec<u32>, targets: &Vec<u32>, max: usize) -> (r: (Vec<usize>, bool))
    ensures
        r.0@.map_values(|k: usize| k as nat) == stream_plan(live@, targets@, max as nat, 0).0,
        r.1 == stream_plan(live@, targets@, max as nat, 0).1,
{
    let mut taken: Vec<u32> = live.clone();
    assert(taken@ == live@);
    let mut start: Vec<usize> = Vec::new();
    let mut i: usize = 0;
    while i < targets.len()
        invariant
            i <= targets@.len(),
            stream_plan(live@, targets@, max as nat, 0).0 == start@.map_values(|k: usize| k as nat) + stream_plan(
                taken@,
                targets@,
                max as nat,
                i as nat,
            ).0,
            stream_plan(live@, targets@, max as nat, 0).1 == stream_plan(taken@, targets@, max as nat, i as nat).1,
        decreases targets@.len() - i,
    {
        let pid = targets[i];
        if has_pid(&taken, pid) {
            i = i + 1;
        } else if taken.len() >= max {
            assert(stream_plan(taken@, targets@, max as nat, i as nat).0 =~= Seq::<nat>::empty());
            assert(start@.map_values(|k: usize| k as nat) + Seq::<nat>::empty() =~= start@.map_values(|k: usize| k as nat));
            return (start, true);
        } else {
            let ghost before = start@.map_values(|k: usize| k as nat);
            let ghost next = stream_plan(taken@.push(pid), targets@, max as nat, (i + 1) as nat);
            taken.push(pid);
            start.push(i);
            assert(start@.map_values(|k: usize| k as nat) =~= before.push(i as nat));
            assert(before + (seq![i as nat] + next.0) =~= before.push(i as nat) + next.0);
            i = i + 1;
        }
    }
    assert(stream_plan(taken@, targets@, max as nat, i as nat).0 =~= Seq::<nat>::empty());
    assert(start@.map_values(|k: usize| k as nat) + Seq::<nat>::empty() =~= start@.map_values(|k: usize| k as nat));
    (start, false)
}

/// One scan of the supervisor: with the processes found (`Ok`) it plans the new streams and logs
/// the limit the first time it is hit; with a listing error it logs that error the first time in
/// a row. The limit is said once for the whole run; the failure again after a listing worked.
pub fn supervise_step(state: SupervisorState, found: Result<Vec<u32>, String>, live: &Vec<u32>) -> (r: (SupervisorState, ScanAction))
    ensures
        match found {
            Ok(targets) => {
                let plan = stream_plan(live@, targets@, MAX_APP_STREAMS as nat, 0);
                &&& r.1.start@.map_values(|k: usize| k as nat) == plan.0
                &&& r.1.log_limit == (plan.1 && !state.announced_limit)
                &&& r.1.log_failure is None
                &&& r.0 == SupervisorState { announced_failure: false, announced_limit: state.announced_limit || plan.1 }
            },
            Err(e) => {
                &&& r.1.start@.len() == 0
                &&& !r.1.log_limit
                &&& if state.announced_failure {
                    r.1.log_failure is None
                } else {
                    r.1.log_failure is Some && r.1.log_failure->Some_0@ == e@
                }
                &&& r.0 == SupervisorState { announced_failure: true, announced_limit: state.announced_limit }
            },
        },
{
    match found {
        Ok(targets) => {
            let (start, hit) = plan_streams(live, &targets, MAX_APP_STREAMS);
            let next = SupervisorState { announced_failure: false, announced_limit: state.announced_limit || hit };
            (next, ScanAction { start, log_limit: hit && !state.announced_limit, log_failure: None })
        },
        Err(e) => {
            let next = SupervisorState { announced_failure: true, announced_limit: state.announced_limit };
            let log_failure = if state.announced_failure {
                None
            } else {
                Some(e)
            };
            (next, ScanAction { start: Vec::new(), log_limit: false, log_failure })
        },
    }
}

/// Law: a scan never leaves more than `max` streams running when it started with at most `max`,
/// never starts a process twice, and never starts one that already had a stream.
pub proof fn lemma_plan_bounded(taken: Seq<u32>, targets: Seq<u32>, max: nat, i: nat)
    requires
        taken.len() <= max,
    ensures
        taken.len() + stream_plan(taken, targets, max, i).0.len() <= max,
        forall|a: int, b: int|
            0 <= a < b < stream_plan(taken, targets, max, i).0.len() ==> targets[stream_plan(taken, targets, max, i).0[a] as int]
                != targets[stream_plan(taken, targets, max, i).0[b] as int],
        forall|a: int|
            0 <= a < stream_plan(taken, targets, max, i).0.len() ==> !taken.contains(
                targets[#[trigger] stream_plan(taken, targets, max, i).0[a] as int],
            ),
        forall|a: int|
            0 <= a < stream_plan(taken, targets, max, i).0.len() ==> i <= #[trigger] stream_plan(taken, targets, max, i).0[a]
                < targets.len(),
    decreases targets.len() - i,
{
    if i >= targets.len() {
    } else if taken.contains(targets[i as int]) {
        lemma_plan_bounded(taken, targets, max, i + 1);
    } else if taken.len() >= max {
    } else {
        let t2 = taken.push(targets[i as int]);
        lemma_plan_bounded(t2, targets, max, i + 1);
        let rest = stream_plan(t2, targets, max, i + 1).0;
        let all = stream_plan(taken, targets, max, i).0;
        assert(all == seq![i].add(rest));
        assert forall|a: int| 0 <= a < all.len() implies !taken.contains(targets[#[trigger] all[a] as int]) by {
            if a > 0 {
                assert(all[a] == rest[a - 1]);
                assert(!t2.contains(targets[rest[a - 1] as int]));
                if taken.contains(targets[all[a] as int]) {
                    let k = choose|k: int| 0 <= k < taken.len() && taken[k] == targets[all[a] as int];
                    assert(t2[k] == taken[k]);
                }
            }
        }
        assert forall|a: int, b: int| 0 <= a < b < all.len() implies targets[all[a] as int] != targets[all[b] as int] by {
            assert(all[b] == rest[b - 1]);
            assert(!t2.contains(targets[rest[b - 1] as int]));
            if a == 0 {
                assert(t2[taken.len() as int] == targets[i as int]);
            } else {
                assert(all[a] == rest[a - 1]);
            }
        }
        assert forall|a: int| 0 <= a < all.len() implies i <= #[trigger] all[a] < targets.len() by {
            if a > 0 {
                assert(all[a] == rest[a - 1]);
            }
        }
    }
}

/// The frames the mixer takes at most per tick: `max_chunk` samples (at least 64) in whole
/// frames, and at least one frame.
pub open spec fn max_mix_frames(max_chunk: nat, channels: nat) -> nat {
    let c: nat = if channels < 1 {
        1
    } else {
        channels
    };
    let chunk: nat = if max_chunk < 64 {
        64
    } else {
        max_chunk
    };
    let f: nat = chunk / c;
    if f < 1 {
        1
    } else {
        f
    }
}

/// The frames the mixer takes at most per tick.
pub fn mix_frame_limit(max_chunk: usize, channels: usize) -> (n: usize)
    ensures
        n == max_mix_frames(max_chunk as nat, channels as nat),
        n >= 1,
{
    let c: usize = if channels < 1 {
        1
    } else {
        channels
    };
    let chunk: usize = if max_chunk < 64 {
        64
    } else {
        max_chunk
    };
    let f = chunk / c;
    if f < 1 {
        1
    } else {
        f
    }
}

/// The frames of one mixing tick: as many as the fullest buffer holds, at most `limit`.
pub open spec fn tick_frames(queued: Seq<usize>, channels: nat, limit: nat, n: nat) -> nat
    decreases n,
{
    if n == 0 {
        0
    } else {
        let rest = tick_frames(queued, channels, limit, (n - 1) as nat);
        let f: nat = queued[n - 1] as nat / channels;
        let g: nat = if f < limit {
            f
        } else {
            limit
        };
        if g > rest {
            g
        } else {
            rest
        }
    }
}

/// The frames of one mixing tick, from the samples queued in each buffer.
pub fn mix_frames(queued: &Vec<usize>, channels: usize, limit: usize) -> (n: usize)
    requires
        channels >= 1,
    ensures
        n == tick_frames(queued@, channels as nat, limit as nat, queued@.len()),
        n <= limit,
{
    let mut best: usize = 0;
    let mut i: usize = 0;
    while i < queued.len()
        invariant
            channels >= 1,
            i <= queued@.len(),
            best == tick_frames(queued@, channels as nat, limit as nat, i as nat),
            best <= limit,
        decreases queued@.len() - i,
    {
        let f = queued[i] / channels;
        let g = if f < limit {
            f
        } else {
            limit
        };
        if g > best {
            best = g;
        }
        i = i + 1;
    }
    best
}

/// The samples the mixer takes from one buffer holding `queued` samples: whole frames, at most
/// `frames` of them.
pub fn mix_take(queued: usize, channels: usize, frames: usize) -> (n: usize)
    requires
        channels >= 1,
    ensures
        n == (if queued / channels < frames {
            queued / channels
        } else {
            frames
        }) * channels,
        n <= queued,
        n % channels == 0,
{
    let f = queued / channels;
    let k = if f < frames {
        f
    } else {
        frames
    };
    assert(k * channels <= queued) by (nonlinear_arith)
        requires
            k <= queued / channels,
            channels >= 1,
    ;
    assert((k * channels) % (channels as int) == 0) by (nonlinear_arith)
        requires
            channels >= 1,
    ;
    k * channels
}

} // verus!
