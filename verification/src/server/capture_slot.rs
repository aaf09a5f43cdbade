//! Which audio capture runs, and how it is replaced.

use vstd::prelude::*;

verus! {

/// How far the audio capture is.
#[derive(Debug, Clone, Copy, PartialEq, Eq, Structural)]
pub enum Phase {
    /// None runs.
    Empty,
    /// One runs.
    Running,
    /// One is being stopped, to be replaced by one at this rate.
    Stopping { target_rate: u32 },
    /// One is being started, at this rate.
    Starting { target_rate: u32 },
}

/// What happens to the audio capture.
#[derive(Debug, Clone, Copy, PartialEq, Eq, Structural)]
pub enum CaptureEvent {
    /// A capture at this rate is wanted. An earlier wish that was given up while the old capture
    /// was being stopped is forgotten.
    Replace { target_rate: u32 },
    /// The old capture has stopped.
    Stopped,
    /// The new capture was started.
    Started,
    /// The new capture could not be started.
    StartFailed,
}

/// What to do about the audio capture.
#[derive(Debug, Clone, Copy, PartialEq, Eq, Structural)]
pub enum CaptureAction {
    /// End the old capture's broadcast, stop it, and wait until it has stopped.
    StopOld,
    /// Start a capture at this rate.
    Start { target_rate: u32 },
    /// The replacement is complete.
    Succeed,
    /// The replacement failed.
    Fail,
}

/// The one audio capture of a server, and the rate that the server works at.
#[derive(Debug)]
pub struct CaptureSlot {
    pub phase: Phase,
    /// In Hz.
    pub sample_rate: u32,
}

/// The event can happen in this phase.
pub open spec fn can_happen(phase: Phase, event: CaptureEvent) -> bool {
    match event {
        CaptureEvent::Replace { .. } => !(phase is Starting),
        CaptureEvent::Stopped => phase is Stopping,
        CaptureEvent::Started => phase is Starting,
        CaptureEvent::StartFailed => phase is Starting,
    }
}

/// The phase after an event.
pub open spec fn phase_after(phase: Phase, event: CaptureEvent) -> Phase {
    match (phase, event) {
        (Phase::Running, CaptureEvent::Replace { target_rate }) => Phase::Stopping { target_rate },
        (Phase::Stopping { .. }, CaptureEvent::Replace { target_rate }) => Phase::Stopping {
            target_rate,
        },
        (_, CaptureEvent::Replace { target_rate }) => Phase::Starting { target_rate },
        (Phase::Stopping { target_rate }, CaptureEvent::Stopped) => Phase::Starting { target_rate },
        (_, CaptureEvent::Started) => Phase::Running,
        (_, CaptureEvent::StartFailed) => Phase::Empty,
        (_, _) => phase,
    }
}

/// The server's rate after an event: the rate that is wanted counts from when no old capture runs
/// any more, whether the new one then starts or not.
pub open spec fn rate_after(phase: Phase, sample_rate: u32, event: CaptureEvent) -> u32 {
    match (phase, event) {
        (Phase::Empty, CaptureEvent::Replace { target_rate }) => target_rate,
        (Phase::Stopping { target_rate }, CaptureEvent::Stopped) => target_rate,
        (_, _) => sample_rate,
    }
}

/// What an event asks for.
pub open spec fn action_for(phase: Phase, event: CaptureEvent) -> CaptureAction {
    match (phase, event) {
        (Phase::Running, CaptureEvent::Replace { .. }) => CaptureAction::StopOld,
        (Phase::Stopping { .. }, CaptureEvent::Replace { .. }) => CaptureAction::StopOld,
        (_, CaptureEvent::Replace { target_rate }) => CaptureAction::Start { target_rate },
        (Phase::Stopping { target_rate }, CaptureEvent::Stopped) => CaptureAction::Start {
            target_rate,
        },
        (_, CaptureEvent::Started) => CaptureAction::Succeed,
        (_, _) => CaptureAction::Fail,
    }
}

impl CaptureSlot {
    /// No capture runs yet, and the server works at the rate of its device.
    pub fn new(detected_rate: u32) -> (slot: Self)
        ensures
            slot.phase is Empty,
            slot.sample_rate == detected_rate,
    {
        CaptureSlot { phase: Phase::Empty, sample_rate: detected_rate }
    }

    /// Whether the event can happen now.
    pub fn expects(&self, event: CaptureEvent) -> (expected: bool)
        ensures
            expected == can_happen(self.phase, event),
    {
        match (self.phase, event) {
            (Phase::Empty, CaptureEvent::Replace { .. }) => true,
            (Phase::Running, CaptureEvent::Replace { .. }) => true,
            (Phase::Stopping { .. }, CaptureEvent::Replace { .. }) => true,
            (Phase::Stopping { .. }, CaptureEvent::Stopped) => true,
            (Phase::Starting { .. }, CaptureEvent::Started) => true,
            (Phase::Starting { .. }, CaptureEvent::StartFailed) => true,
            (_, _) => false,
        }
    }

    /// Decides what to do about an event.
    pub fn step(&mut self, event: CaptureEvent) -> (action: CaptureAction)
        requires
            can_happen(old(self).phase, event),
        ensures
            final(self).phase == phase_after(old(self).phase, event),
            final(self).sample_rate == rate_after(old(self).phase, old(self).sample_rate, event),
            action == action_for(old(self).phase, event),
    {
        match event {
            CaptureEvent::Replace { target_rate } => match self.phase {
                Phase::Running | Phase::Stopping { .. } => {
                    self.phase = Phase::Stopping { target_rate };
                    CaptureAction::StopOld
                },
                Phase::Empty | Phase::Starting { .. } => {
                    self.sample_rate = target_rate;
                    self.phase = Phase::Starting { target_rate };
                    CaptureAction::Start { target_rate }
                },
            },
            CaptureEvent::Stopped => {
                if let Phase::Stopping { target_rate } = self.phase {
                    self.sample_rate = target_rate;
                    self.phase = Phase::Starting { target_rate };
                    CaptureAction::Start { target_rate }
                } else {
                    CaptureAction::Fail
                }
            },
            CaptureEvent::Started => {
                self.phase = Phase::Running;
                CaptureAction::Succeed
            },
            CaptureEvent::StartFailed => {
                self.phase = Phase::Empty;
                CaptureAction::Fail
            },
        }
    }
}

/// How many captures there are at most: one that runs or is being stopped counts.
pub open spec fn live_captures(phase: Phase) -> nat {
    if phase is Running || phase is Stopping {
        1
    } else {
        0
    }
}

/// A capture is started only when no other is there, so there are never two.
pub proof fn law_never_two_captures(phase: Phase, event: CaptureEvent)
    requires
        can_happen(phase, event),
    ensures
        action_for(phase, event) is Start ==> live_captures(phase_after(phase, event)) == 0,
        action_for(phase, event) is Start ==> phase_after(phase, event) is Starting,
        action_for(phase, event) is StopOld ==> live_captures(phase) == 1,
        live_captures(phase_after(phase, event)) <= 1,
{
}

/// Replacing a running capture stops it first, then starts one at the wanted rate, and from then on
/// the server works at that rate, whether the start succeeds or not.
pub proof fn law_replacement(sample_rate: u32, target_rate: u32, succeeds: bool)
    ensures
        ({
            let wanted = CaptureEvent::Replace { target_rate };
            let outcome = if succeeds {
                CaptureEvent::Started
            } else {
                CaptureEvent::StartFailed
            };
            let stopping = phase_after(Phase::Running, wanted);
            let starting = phase_after(stopping, CaptureEvent::Stopped);
            let rate = rate_after(
                stopping,
                rate_after(Phase::Running, sample_rate, wanted),
                CaptureEvent::Stopped,
            );
            &&& action_for(Phase::Running, wanted) == CaptureAction::StopOld
            &&& rate_after(Phase::Running, sample_rate, wanted) == sample_rate
            &&& can_happen(stopping, CaptureEvent::Stopped)
            &&& action_for(stopping, CaptureEvent::Stopped) == (CaptureAction::Start {
                target_rate,
            })
            &&& can_happen(starting, outcome)
            &&& rate_after(starting, rate, outcome) == target_rate
            &&& phase_after(starting, outcome) == if succeeds {
                Phase::Running
            } else {
                Phase::Empty
            }
        }),
{
}

/// A wish that is given up while the old capture is being stopped does no harm: the next wish is
/// taken as if the old capture still ran, and it is the next wish's rate that counts.
pub proof fn law_given_up_wish_is_forgotten(sample_rate: u32, given_up: u32, target_rate: u32)
    ensures
        ({
            let wanted = CaptureEvent::Replace { target_rate };
            let stopping = Phase::Stopping { target_rate: given_up };
            &&& can_happen(stopping, wanted)
            &&& phase_after(stopping, wanted) == phase_after(Phase::Running, wanted)
            &&& action_for(stopping, wanted) == action_for(Phase::Running, wanted)
            &&& rate_after(stopping, sample_rate, wanted) == sample_rate
        }),
{
}

/// Where no capture runs, a wanted one is started at once, and the server works at its rate,
/// whether the start succeeds or not.
pub proof fn law_first_capture(sample_rate: u32, target_rate: u32, succeeds: bool)
    ensures
        ({
            let wanted = CaptureEvent::Replace { target_rate };
            let outcome = if succeeds {
                CaptureEvent::Started
            } else {
                CaptureEvent::StartFailed
            };
            let starting = phase_after(Phase::Empty, wanted);
            let rate = rate_after(Phase::Empty, sample_rate, wanted);
            &&& action_for(Phase::Empty, wanted) == (CaptureAction::Start { target_rate })
            &&& can_happen(starting, outcome)
            &&& rate_after(starting, rate, outcome) == target_rate
            &&& phase_after(starting, outcome) == if succeeds {
                Phase::Running
            } else {
                Phase::Empty
            }
        }),
{
}

/// What can happen when: a capture can be wanted unless one is just being started, an old one stops
/// only while it is being stopped, and a start succeeds or fails only while it is under way.
pub proof fn law_what_can_happen(phase: Phase, target_rate: u32)
    ensures
        can_happen(phase, CaptureEvent::Replace { target_rate }) <==> (phase is Empty
            || phase is Running || phase is Stopping),
        can_happen(phase, CaptureEvent::Stopped) <==> phase is Stopping,
        can_happen(phase, CaptureEvent::Started) <==> phase is Starting,
        can_happen(phase, CaptureEvent::StartFailed) <==> phase is Starting,
{
}

/// A start ends the replacement: with success and a running capture, or with failure and none; the
/// server's rate stays what it was when the start began.
pub proof fn law_start_ends_the_replacement(starting: u32, sample_rate: u32)
    ensures
        ({
            let phase = Phase::Starting { target_rate: starting };
            &&& action_for(phase, CaptureEvent::Started) == CaptureAction::Succeed
            &&& phase_after(phase, CaptureEvent::Started) == Phase::Running
            &&& rate_after(phase, sample_rate, CaptureEvent::Started) == sample_rate
            &&& action_for(phase, CaptureEvent::StartFailed) == CaptureAction::Fail
            &&& phase_after(phase, CaptureEvent::StartFailed) == Phase::Empty
            &&& rate_after(phase, sample_rate, CaptureEvent::StartFailed) == sample_rate
        }),
{
}

/// Wanting a capture never changes the server's rate while an old one is there, and always does at
/// once where none is; the capture that is then started has the wanted rate and no other.
pub proof fn law_wanted_rate_is_started(phase: Phase, sample_rate: u32, target_rate: u32)
    requires
        can_happen(phase, CaptureEvent::Replace { target_rate }),
    ensures
        ({
            let wanted = CaptureEvent::Replace { target_rate };
            let next = phase_after(phase, wanted);
            if phase is Empty {
                &&& action_for(phase, wanted) == (CaptureAction::Start { target_rate })
                &&& next == (Phase::Starting { target_rate })
                &&& rate_after(phase, sample_rate, wanted) == target_rate
            } else {
                &&& action_for(phase, wanted) == CaptureAction::StopOld
                &&& next == (Phase::Stopping { target_rate })
                &&& rate_after(phase, sample_rate, wanted) == sample_rate
                &&& action_for(next, CaptureEvent::Stopped) == (CaptureAction::Start {
                    target_rate,
                })
                &&& phase_after(next, CaptureEvent::Stopped) == (Phase::Starting { target_rate })
                &&& rate_after(next, sample_rate, CaptureEvent::Stopped) == target_rate
            }
        }),
{
}

/// What a step does: a wanted capture is started at once where none is there, else the old one is
/// stopped first; once it has stopped, the wanted one is started; and the start ends the matter.
pub proof fn law_stepping(slot: &mut CaptureSlot, event: CaptureEvent, action: CaptureAction)
    requires
        can_happen(old(slot).phase, event),
        call_ensures(CaptureSlot::step, (slot, event), action),
    ensures
        event matches CaptureEvent::Replace { target_rate } ==> if old(slot).phase is Empty {
            &&& action == (CaptureAction::Start { target_rate })
            &&& final(slot).phase == (Phase::Starting { target_rate })
            &&& final(slot).sample_rate == target_rate
        } else {
            &&& action is StopOld
            &&& final(slot).phase == (Phase::Stopping { target_rate })
            &&& final(slot).sample_rate == old(slot).sample_rate
        },
        event is Stopped ==> (old(slot).phase matches Phase::Stopping { target_rate } && action == (
        CaptureAction::Start { target_rate }) && final(slot).phase == (Phase::Starting {
            target_rate,
        }) && final(slot).sample_rate == target_rate),
        event is Started ==> action is Succeed && final(slot).phase is Running,
        event is StartFailed ==> action is Fail && final(slot).phase is Empty,
        event is Started || event is StartFailed ==> final(slot).sample_rate
            == old(slot).sample_rate,
{
}

} // verus!
