//! The playback-session lifecycle: one polling step per iteration, where a
//! shutdown notification pre-empts end-of-content detection and the
//! reported position is always the latest successfully sampled value.
//! Positions are carried as whole milliseconds.
use vstd::prelude::*;

verus! {

/// What one polling iteration of the player loop observed: either a
/// shutdown notification, or a sample of the player's state (the current
/// position when it could be read, and the end-of-content flag).
#[derive(Debug, Clone, Copy)]
pub enum PlaybackEvent {
    Shutdown,
    Sample { position: Option<u64>, eof: bool },
}

/// How a session ended: `finished` tells end-of-content from a user quit,
/// and `last_position` holds the last sampled position in milliseconds
/// (zero once content has fully ended).
#[derive(Debug, PartialEq, Eq, Structural, Clone, Copy)]
pub struct PlaybackOutcome {
    pub finished: bool,
    pub last_position: u64,
}

/// Where the session stands after one step: still running with the given
/// last known position, or ended with an outcome.
#[derive(Debug, PartialEq, Eq, Structural, Clone, Copy)]
pub enum PlaybackStep {
    Running(u64),
    Done(PlaybackOutcome),
}

/// One step of the session: a shutdown ends it at the position known
/// before this iteration; otherwise the position sample (when readable)
/// replaces the last known one, and end-of-content ends the session with
/// a zero position.
pub open spec fn step_spec(last: u64, ev: PlaybackEvent) -> PlaybackStep {
    match ev {
        PlaybackEvent::Shutdown => PlaybackStep::Done(
            PlaybackOutcome { finished: false, last_position: last },
        ),
        PlaybackEvent::Sample { position, eof } => {
            let np = if position is Some {
                position->0
            } else {
                last
            };
            if eof {
                PlaybackStep::Done(PlaybackOutcome { finished: true, last_position: 0 })
            } else {
                PlaybackStep::Running(np)
            }
        },
    }
}

/// The session run over a whole series of observations, starting from the
/// given last known position: the first terminal step wins.
pub open spec fn run_spec(last: u64, evs: Seq<PlaybackEvent>) -> PlaybackStep
    decreases evs.len(),
{
    if evs.len() == 0 {
        PlaybackStep::Running(last)
    } else {
        match step_spec(last, evs[0]) {
            PlaybackStep::Done(o) => PlaybackStep::Done(o),
            PlaybackStep::Running(np) => run_spec(np, evs.skip(1)),
        }
    }
}

/// Performs one polling step of the session.
pub fn playback_step(last: u64, ev: &PlaybackEvent) -> (r: PlaybackStep)
    ensures
        r == step_spec(last, *ev),
{
    match ev {
        PlaybackEvent::Shutdown => PlaybackStep::Done(
            PlaybackOutcome { finished: false, last_position: last },
        ),
        PlaybackEvent::Sample { position, eof } => {
            let np = match position {
                Some(p) => *p,
                None => last,
            };
            if *eof {
                PlaybackStep::Done(PlaybackOutcome { finished: true, last_position: 0 })
            } else {
                PlaybackStep::Running(np)
            }
        },
    }
}

/// Runs the session over a recorded series of observations.
pub fn run_session(start: u64, events: &Vec<PlaybackEvent>) -> (r: PlaybackStep)
    ensures
        r == run_spec(start, events@),
{
    let mut last = start;
    let mut i: usize = 0;
    proof {
        assert(events@.skip(0) =~= events@);
    }
    while i < events.len()
        invariant
            i <= events@.len(),
            run_spec(start, events@) == run_spec(last, events@.skip(i as int)),
        decreases events@.len() - i,
    {
        let step = playback_step(last, &events[i]);
        proof {
            assert(events@.skip(i as int)[0] == events@[i as int]);
            assert(events@.skip(i as int).skip(1) =~= events@.skip(i as int + 1));
        }
        match step {
            PlaybackStep::Done(o) => {
                return PlaybackStep::Done(o);
            },
            PlaybackStep::Running(np) => {
                last = np;
            },
        }
        i = i + 1;
    }
    proof {
        assert(events@.skip(events@.len() as int) =~= Seq::<PlaybackEvent>::empty());
    }
    PlaybackStep::Running(last)
}

/// The last successfully sampled position after a series of observations,
/// starting from `start`: unreadable samples leave it unchanged.
pub open spec fn last_sampled(start: u64, evs: Seq<PlaybackEvent>) -> u64
    decreases evs.len(),
{
    if evs.len() == 0 {
        start
    } else {
        let prev = last_sampled(start, evs.drop_last());
        match evs.last() {
            PlaybackEvent::Sample { position: Some(p), .. } => p,
            _ => prev,
        }
    }
}

/// An observation that keeps the session running: a state sample without
/// end-of-content.
pub open spec fn quiet_sample(ev: PlaybackEvent) -> bool {
    ev matches PlaybackEvent::Sample { eof, .. } && !eof
}

/// A shutdown that fires before end-of-content is ever observed ends the
/// session as a user quit, at the position sampled over the iterations
/// before it.
pub proof fn lemma_shutdown_preempts(start: u64, evs: Seq<PlaybackEvent>, k: int)
    requires
        0 <= k < evs.len(),
        evs[k] is Shutdown,
        forall|j: int| 0 <= j < k ==> quiet_sample(#[trigger] evs[j]),
    ensures
        run_spec(start, evs) == PlaybackStep::Done(
            PlaybackOutcome { finished: false, last_position: last_sampled(start, evs.take(k)) },
        ),
    decreases k,
{
    if k == 0 {
        assert(evs.take(0) =~= Seq::<PlaybackEvent>::empty());
    } else {
        let np = match evs[0] {
            PlaybackEvent::Sample { position: Some(p), .. } => p,
            _ => start,
        };
        assert(step_spec(start, evs[0]) == PlaybackStep::Running(np));
        assert(evs.skip(1)[k - 1] is Shutdown);
        assert forall|j: int| 0 <= j < k - 1 implies quiet_sample(#[trigger] evs.skip(1)[j]) by {
            assert(evs.skip(1)[j] == evs[j + 1]);
        }
        lemma_shutdown_preempts(np, evs.skip(1), k - 1);
        lemma_last_sampled_shift(start, np, evs, k);
    }
}

/// End-of-content observed before any shutdown ends the session as
/// finished, with a zero position.
pub proof fn lemma_eof_finishes(start: u64, evs: Seq<PlaybackEvent>, k: int)
    requires
        0 <= k < evs.len(),
        evs[k] matches PlaybackEvent::Sample { eof, .. } && eof,
        forall|j: int| 0 <= j < k ==> quiet_sample(#[trigger] evs[j]),
    ensures
        run_spec(start, evs) == PlaybackStep::Done(
            PlaybackOutcome { finished: true, last_position: 0 },
        ),
    decreases k,
{
    if k > 0 {
        let np = match evs[0] {
            PlaybackEvent::Sample { position: Some(p), .. } => p,
            _ => start,
        };
        assert(step_spec(start, evs[0]) == PlaybackStep::Running(np));
        assert(evs.skip(1)[k - 1] == evs[k]);
        assert forall|j: int| 0 <= j < k - 1 implies quiet_sample(#[trigger] evs.skip(1)[j]) by {
            assert(evs.skip(1)[j] == evs[j + 1]);
        }
        lemma_eof_finishes(np, evs.skip(1), k - 1);
    }
}

/// Helper: the position folded over `evs.take(k)` from `start` equals the
/// fold over the tail's first `k - 1` observations from the first step's
/// updated position.
proof fn lemma_last_sampled_shift(start: u64, np: u64, evs: Seq<PlaybackEvent>, k: int)
    requires
        1 <= k <= evs.len(),
        np == (match evs[0] {
            PlaybackEvent::Sample { position: Some(p), .. } => p,
            _ => start,
        }),
    ensures
        last_sampled(start, evs.take(k)) == last_sampled(np, evs.skip(1).take(k - 1)),
    decreases k,
{
    if k == 1 {
        assert(evs.take(1).drop_last() =~= Seq::<PlaybackEvent>::empty());
        assert(evs.skip(1).take(0) =~= Seq::<PlaybackEvent>::empty());
        assert(evs.take(1).last() == evs[0]);
    } else {
        lemma_last_sampled_shift(start, np, evs, k - 1);
        assert(evs.take(k).drop_last() =~= evs.take(k - 1));
        assert(evs.skip(1).take(k - 1).drop_last() =~= evs.skip(1).take(k - 2));
        assert(evs.take(k).last() == evs[k - 1]);
        assert(evs.skip(1).take(k - 1).last() == evs[k - 1]);
    }
}

} // verus!
