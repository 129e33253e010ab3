//! The accept/shutdown lifecycle of the server.
//!
//! The serve loop races three events with a fixed priority: a shutdown
//! signal first, then a newly accepted connection, then the completion of
//! a tracked connection task. The decisions are made here, as a pure
//! state machine; the caller owns the listener and the tasks, performs
//! the returned action, and reports the next event. Once a shutdown
//! signal has been observed no further connection is ever accepted, no
//! running task is ever interrupted, and the serve operation finishes
//! only when every tracked task has run to completion.

use vstd::prelude::*;

verus! {

/// The phases of the serve loop: accepting new connections, draining the
/// tasks still running after a shutdown signal, and finished.
#[derive(Clone, Copy, Debug, PartialEq, Eq, Structural)]
pub enum ServePhase {
    Running,
    Draining,
    Done,
}

/// What the outside world reports to the serve loop.
pub enum ServeEvent {
    Shutdown,
    Accepted,
    AcceptFailed,
    TaskFinished,
}

/// What the serve loop tells its caller to do next.
#[derive(Clone, Copy, Debug, PartialEq, Eq, Structural)]
pub enum ServeAction {
    Spawn,
    Ignore,
    Finish,
}

/// The serve loop's state: its phase and the count of connection tasks
/// that have been spawned and have not yet finished.
#[derive(Clone, Copy, Debug, PartialEq, Eq, Structural)]
pub struct Serve {
    pub phase: ServePhase,
    pub live: usize,
}

/// A fresh serve loop, accepting and with no tasks yet.
pub fn serve_new() -> (s: Serve)
    ensures
        s.phase is Running,
        s.live == 0,
{
    Serve { phase: ServePhase::Running, live: 0 }
}

/// The serve loop's transition function.
///
/// While running: a shutdown signal stops accepting at once, finishing
/// immediately when no task is live and draining otherwise; an accepted
/// connection is spawned as a task; a failed accept is ignored; a task
/// completion is reaped. While draining, only task completions matter,
/// and the last one finishes the loop; a second shutdown signal has no
/// further effect. A task may be spawned only while running, and the
/// loop finishes only with no live task left.
pub open spec fn serve_tr(s: Serve, ev: ServeEvent) -> (Serve, ServeAction) {
    match (s.phase, ev) {
        (ServePhase::Running, ServeEvent::Shutdown) => {
            if s.live == 0 {
                (Serve { phase: ServePhase::Done, live: 0 }, ServeAction::Finish)
            } else {
                (Serve { phase: ServePhase::Draining, live: s.live }, ServeAction::Ignore)
            }
        },
        (ServePhase::Running, ServeEvent::Accepted) => (
            Serve { phase: ServePhase::Running, live: (s.live + 1) as usize },
            ServeAction::Spawn,
        ),
        (ServePhase::Running, ServeEvent::AcceptFailed) => (s, ServeAction::Ignore),
        (ServePhase::Running, ServeEvent::TaskFinished) => {
            if s.live == 0 {
                (s, ServeAction::Ignore)
            } else {
                (
                    Serve { phase: ServePhase::Running, live: (s.live - 1) as usize },
                    ServeAction::Ignore,
                )
            }
        },
        (ServePhase::Draining, ServeEvent::TaskFinished) => {
            if s.live <= 1 {
                (Serve { phase: ServePhase::Done, live: 0 }, ServeAction::Finish)
            } else {
                (
                    Serve { phase: ServePhase::Draining, live: (s.live - 1) as usize },
                    ServeAction::Ignore,
                )
            }
        },
        (ServePhase::Draining, _) => (s, ServeAction::Ignore),
        (ServePhase::Done, _) => (s, ServeAction::Ignore),
    }
}

/// Advances the serve loop by one event.
pub fn serve_step(s: Serve, ev: ServeEvent) -> (r: (Serve, ServeAction))
    requires
        ev is Accepted ==> s.live < usize::MAX,
    ensures
        r == serve_tr(s, ev),
{
    match (s.phase, ev) {
        (ServePhase::Running, ServeEvent::Shutdown) => {
            if s.live == 0 {
                (Serve { phase: ServePhase::Done, live: 0 }, ServeAction::Finish)
            } else {
                (Serve { phase: ServePhase::Draining, live: s.live }, ServeAction::Ignore)
            }
        },
        (ServePhase::Running, ServeEvent::Accepted) => (
            Serve { phase: ServePhase::Running, live: s.live + 1 },
            ServeAction::Spawn,
        ),
        (ServePhase::Running, ServeEvent::AcceptFailed) => (s, ServeAction::Ignore),
        (ServePhase::Running, ServeEvent::TaskFinished) => {
            if s.live == 0 {
                (s, ServeAction::Ignore)
            } else {
                (Serve { phase: ServePhase::Running, live: s.live - 1 }, ServeAction::Ignore)
            }
        },
        (ServePhase::Draining, ServeEvent::TaskFinished) => {
            if s.live <= 1 {
                (Serve { phase: ServePhase::Done, live: 0 }, ServeAction::Finish)
            } else {
                (Serve { phase: ServePhase::Draining, live: s.live - 1 }, ServeAction::Ignore)
            }
        },
        (ServePhase::Draining, _) => (s, ServeAction::Ignore),
        (ServePhase::Done, _) => (s, ServeAction::Ignore),
    }
}

/// A connection task is spawned only while the loop is accepting, and the
/// loop finishes only once no task is live; a shutdown signal is never
/// followed by a return to the accepting phase.
pub proof fn lemma_serve_step_safe(s: Serve, ev: ServeEvent)
    ensures
        serve_tr(s, ev).1 is Spawn ==> s.phase is Running && ev is Accepted,
        serve_tr(s, ev).1 is Finish ==> serve_tr(s, ev).0.live == 0 && serve_tr(
            s,
            ev,
        ).0.phase is Done,
        !(s.phase is Running) ==> !(serve_tr(s, ev).0.phase is Running),
{
}

/// The serve state after a whole sequence of events.
pub open spec fn serve_run(s: Serve, evs: Seq<ServeEvent>) -> Serve
    decreases evs.len(),
{
    if evs.len() == 0 {
        s
    } else {
        serve_run(serve_tr(s, evs[0]).0, evs.drop_first())
    }
}

/// The action taken at step `k` of a sequence of events.
pub open spec fn serve_action_at(s: Serve, evs: Seq<ServeEvent>, k: int) -> ServeAction {
    serve_tr(serve_run(s, evs.take(k)), evs[k]).1
}

/// Drain correctness, over whole runs: once the loop has left the
/// accepting phase — as it does the moment a shutdown signal is observed
/// — no later event, in any order, ever spawns another connection task,
/// and the phase never returns to accepting.
pub proof fn lemma_no_spawn_after_shutdown(s: Serve, evs: Seq<ServeEvent>)
    requires
        !(s.phase is Running),
    ensures
        !(serve_run(s, evs).phase is Running),
        forall|k: int| 0 <= k < evs.len() ==> !(serve_action_at(s, evs, k) is Spawn),
    decreases evs.len(),
{
    if evs.len() == 0 {
    } else {
        let s1 = serve_tr(s, evs[0]).0;
        lemma_no_spawn_after_shutdown(s1, evs.drop_first());
        assert forall|k: int| 0 <= k < evs.len() implies !(serve_action_at(s, evs, k) is Spawn) by {
            if k == 0 {
                assert(evs.take(0) =~= Seq::<ServeEvent>::empty());
            } else {
                assert(evs.take(k).drop_first() =~= evs.drop_first().take(k - 1));
                assert(serve_run(s, evs.take(k)) == serve_run(s1, evs.drop_first().take(k - 1)));
                assert(evs[k] == evs.drop_first()[k - 1]);
                assert(!(serve_action_at(s1, evs.drop_first(), k - 1) is Spawn));
            }
        }
    }
}

} // verus!
