//! Scanning again and again.

use vstd::prelude::*;

use crate::text::{concat2, copy_str, decimal, u64_text};

verus! {

/// What to do after a scan.
#[derive(Debug)]
pub enum CycleStep {
    /// Shut down.
    Stop,
    /// Show this status, sleep for so many seconds and scan again, unless the sleep is cut short.
    Sleep { secs: u64, status: String },
}

/// The status that is shown while the program waits for the next scan.
pub open spec fn waiting_status(secs: u64) -> Seq<char> {
    "waiting "@ + decimal(secs as nat) + "s before next check"@
}

/// What to do after a scan: scan again after the configured interval, unless the scan was
/// interrupted or the program is shutting down.
pub fn after_cycle(completed: bool, cancelled: bool, check_interval_secs: u64) -> (r: CycleStep)
    ensures
        match r {
            CycleStep::Stop => !completed || cancelled,
            CycleStep::Sleep { secs, status } => {
                &&& completed && !cancelled
                &&& secs == check_interval_secs
                &&& status@ == waiting_status(check_interval_secs)
            },
        },
{
    if !completed || cancelled {
        return CycleStep::Stop;
    }
    let mut status = concat2("waiting ", u64_text(check_interval_secs).as_str());
    status.append("s before next check");
    CycleStep::Sleep { secs: check_interval_secs, status }
}

/// The status that is shown while a scan runs.
pub fn running_status() -> (r: String)
    ensures
        r@ == "running"@,
{
    copy_str("running")
}

/// The status that is shown while the program shuts down.
pub fn stopping_status() -> (r: String)
    ensures
        r@ == "shutting down"@,
{
    copy_str("shutting down")
}

// ── a run of scans ───────────────────────────────────────────────────────

/// What a run of scans waits for.
#[derive(Debug, Clone, Copy, PartialEq, Eq, Structural)]
pub enum CyclePhase {
    /// The end of a scan.
    Scanning,
    /// The end of saving the state after a scan, which was complete or interrupted.
    Saving { completed: bool },
    /// The end of a sleep.
    Sleeping,
    /// Nothing: the run is over.
    Stopped,
}

/// Something that happened to a run of scans.
#[derive(Debug, Clone, Copy, PartialEq, Eq, Structural)]
pub enum CycleEvent {
    /// A scan is over; it was complete, or it was interrupted.
    Scanned { completed: bool },
    /// The state is saved; the program is shutting down, or it is not.
    Saved { cancelled: bool },
    /// A sleep is over; it was cut short if the program is shutting down.
    SleepOver { cut: bool },
}

/// What is to be done in a run of scans.
#[derive(Debug)]
pub enum CycleAction {
    /// Save the state.
    Save,
    /// Show this status and sleep for so many seconds.
    Sleep { secs: u64, status: String },
    /// Show this status and scan.
    Scan { status: String },
    /// Show this status and shut down.
    Stop { status: String },
}

/// What is to be done in a run of scans.
pub enum CycleActionView {
    Save,
    Sleep { secs: u64, status: Seq<char> },
    Scan { status: Seq<char> },
    Stop { status: Seq<char> },
}

impl View for CycleAction {
    type V = CycleActionView;

    open spec fn view(&self) -> CycleActionView {
        match self {
            CycleAction::Save => CycleActionView::Save,
            CycleAction::Sleep { secs, status } => CycleActionView::Sleep {
                secs: *secs,
                status: status@,
            },
            CycleAction::Scan { status } => CycleActionView::Scan { status: status@ },
            CycleAction::Stop { status } => CycleActionView::Stop { status: status@ },
        }
    }
}

/// A run of scans.
#[derive(Debug, Clone, Copy, PartialEq, Eq, Structural)]
pub struct Cycle {
    /// The seconds between two scans.
    pub check_interval_secs: u64,
    /// What the run waits for.
    pub phase: CyclePhase,
}

/// Whether the event is one that the run waits for.
pub open spec fn awaits(phase: CyclePhase, event: CycleEvent) -> bool {
    match phase {
        CyclePhase::Scanning => event is Scanned,
        CyclePhase::Saving { .. } => event is Saved,
        CyclePhase::Sleeping => event is SleepOver,
        CyclePhase::Stopped => false,
    }
}

/// What the run does upon an event that it waits for. After every scan, complete or interrupted,
/// the state is saved; only then the run sleeps or stops.
pub open spec fn action_of(s: Cycle, event: CycleEvent) -> CycleActionView {
    match event {
        CycleEvent::Scanned { .. } => CycleActionView::Save,
        CycleEvent::Saved { cancelled } => if cancelled || s.phase == (CyclePhase::Saving {
            completed: false,
        }) {
            CycleActionView::Stop { status: "shutting down"@ }
        } else {
            CycleActionView::Sleep {
                secs: s.check_interval_secs,
                status: waiting_status(s.check_interval_secs),
            }
        },
        CycleEvent::SleepOver { cut } => if cut {
            CycleActionView::Stop { status: "shutting down"@ }
        } else {
            CycleActionView::Scan { status: "running"@ }
        },
    }
}

/// What the run waits for after an event that it waited for.
pub open spec fn phase_after(s: Cycle, event: CycleEvent) -> CyclePhase {
    match action_of(s, event) {
        CycleActionView::Save => CyclePhase::Saving {
            completed: event->Scanned_completed,
        },
        CycleActionView::Sleep { .. } => CyclePhase::Sleeping,
        CycleActionView::Scan { .. } => CyclePhase::Scanning,
        CycleActionView::Stop { .. } => CyclePhase::Stopped,
    }
}

/// The run after an event that it waited for.
pub open spec fn state_after(s: Cycle, event: CycleEvent) -> Cycle {
    Cycle { phase: phase_after(s, event), ..s }
}

impl Cycle {
    /// A run whose first scan is under way.
    pub fn new(check_interval_secs: u64) -> (r: Cycle)
        ensures
            r == (Cycle { check_interval_secs, phase: CyclePhase::Scanning }),
    {
        Cycle { check_interval_secs, phase: CyclePhase::Scanning }
    }

    /// What to do upon an event that the run waits for.
    pub fn step(&mut self, event: CycleEvent) -> (r: CycleAction)
        requires
            awaits(old(self).phase, event),
        ensures
            r@ == action_of(*old(self), event),
            *final(self) == state_after(*old(self), event),
    {
        match event {
            CycleEvent::Scanned { completed } => {
                self.phase = CyclePhase::Saving { completed };
                CycleAction::Save
            },
            CycleEvent::Saved { cancelled } => {
                let completed = match self.phase {
                    CyclePhase::Saving { completed } => completed,
                    _ => true,
                };
                match after_cycle(completed, cancelled, self.check_interval_secs) {
                    CycleStep::Stop => {
                        self.phase = CyclePhase::Stopped;
                        CycleAction::Stop { status: stopping_status() }
                    },
                    CycleStep::Sleep { secs, status } => {
                        self.phase = CyclePhase::Sleeping;
                        CycleAction::Sleep { secs, status }
                    },
                }
            },
            CycleEvent::SleepOver { cut } => {
                if cut {
                    self.phase = CyclePhase::Stopped;
                    CycleAction::Stop { status: stopping_status() }
                } else {
                    self.phase = CyclePhase::Scanning;
                    CycleAction::Scan { status: running_status() }
                }
            },
        }
    }
}

/// Whether each of the events is one that the run waits for when it comes.
pub open spec fn runs(s: Cycle, events: Seq<CycleEvent>) -> bool
    decreases events.len(),
{
    events.len() == 0 || (awaits(s.phase, events[0]) && runs(
        state_after(s, events[0]),
        events.drop_first(),
    ))
}

/// The run after all of the events.
pub open spec fn after_all(s: Cycle, events: Seq<CycleEvent>) -> Cycle
    decreases events.len(),
{
    if events.len() == 0 {
        s
    } else {
        after_all(state_after(s, events[0]), events.drop_first())
    }
}

/// How many scans are over.
pub open spec fn scans(events: Seq<CycleEvent>) -> int
    decreases events.len(),
{
    if events.len() == 0 {
        0
    } else {
        scans(events.drop_first()) + if events[0] is Scanned {
            1int
        } else {
            0
        }
    }
}

/// How many times the state was saved.
pub open spec fn saves(events: Seq<CycleEvent>) -> int
    decreases events.len(),
{
    if events.len() == 0 {
        0
    } else {
        saves(events.drop_first()) + if events[0] is Saved {
            1int
        } else {
            0
        }
    }
}

/// How many scans wait for their state to be saved.
pub open spec fn unsaved(s: Cycle) -> int {
    if s.phase is Saving {
        1
    } else {
        0
    }
}

/// Whatever happens, the state is saved once after every scan: whenever the run scans again,
/// sleeps or is over, no scan is left unsaved.
pub proof fn lemma_every_scan_is_saved(s: Cycle, events: Seq<CycleEvent>)
    requires
        runs(s, events),
    ensures
        unsaved(s) + scans(events) == saves(events) + unsaved(after_all(s, events)),
        unsaved(s) == 0 && !(after_all(s, events).phase is Saving) ==> scans(events) == saves(events),
    decreases events.len(),
{
    if events.len() > 0 {
        lemma_every_scan_is_saved(state_after(s, events[0]), events.drop_first());
    }
}

/// After a scan the state is saved before anything else is done, and the run sleeps or stops only
/// upon a saved state or the end of a sleep.
pub proof fn lemma_saving_comes_first(s: Cycle, event: CycleEvent)
    requires
        awaits(s.phase, event),
    ensures
        s.phase is Scanning ==> action_of(s, event) is Save && state_after(s, event).phase is Saving,
        action_of(s, event) is Sleep ==> s.phase is Saving,
        action_of(s, event) is Stop ==> s.phase is Saving || s.phase is Sleeping,
        action_of(s, event) is Scan ==> s.phase is Sleeping,
{
}

/// The run goes on after a complete scan, unless the program is shutting down: it sleeps for the
/// configured seconds and scans again. It is over as soon as a scan was interrupted, the program
/// is shutting down when the state is saved, or a sleep is cut short.
pub proof fn lemma_runs_go_on(cycle: &mut Cycle, event: CycleEvent, r: CycleAction)
    requires
        call_ensures(Cycle::step, (cycle, event), r),
        awaits(old(cycle).phase, event),
    ensures
        match event {
            CycleEvent::Scanned { completed } => r is Save && final(cycle).phase
                == (CyclePhase::Saving { completed }),
            CycleEvent::Saved { cancelled } => {
                let goes_on = !cancelled && old(cycle).phase == (CyclePhase::Saving {
                    completed: true,
                });
                &&& goes_on <==> r is Sleep
                &&& !goes_on <==> r is Stop
                &&& r matches CycleAction::Sleep { secs, status } ==> secs == old(
                    cycle,
                ).check_interval_secs && status@ == "waiting "@ + decimal(secs as nat)
                    + "s before next check"@ && final(cycle).phase is Sleeping
            },
            CycleEvent::SleepOver { cut } => {
                &&& cut <==> r is Stop
                &&& !cut <==> r is Scan
                &&& r matches CycleAction::Scan { status } ==> status@ == "running"@ && final(cycle).phase is Scanning
            },
        },
        r matches CycleAction::Stop { status } ==> status@ == "shutting down"@ && final(cycle).phase
            is Stopped,
        final(cycle).check_interval_secs == old(cycle).check_interval_secs,
{
    let saved = old(cycle).phase;
    if let CycleEvent::Saved { cancelled } = event {
        assert(saved is Saving);
    }
}

/// After a scan the run rests for the configured seconds, unless the scan was interrupted or the
/// program is shutting down.
pub proof fn lemma_after_cycle(completed: bool, cancelled: bool, secs: u64, r: CycleStep)
    requires
        call_ensures(after_cycle, (completed, cancelled, secs), r),
    ensures
        r is Sleep <==> completed && !cancelled,
        r matches CycleStep::Sleep { secs: n, status } ==> n == secs && status@ == "waiting "@
            + decimal(secs as nat) + "s before next check"@,
{
}

/// What a run waits for: the end of a scan, of saving or of a sleep, each in its turn; and nothing
/// once it is over. It starts with a scan.
pub proof fn lemma_what_runs_wait_for(phase: CyclePhase, event: CycleEvent, secs: u64, r: Cycle)
    requires
        call_ensures(Cycle::new, (secs,), r),
    ensures
        awaits(phase, event) <==> match event {
            CycleEvent::Scanned { .. } => phase is Scanning,
            CycleEvent::Saved { .. } => phase is Saving,
            CycleEvent::SleepOver { .. } => phase is Sleeping,
        },
        r.phase is Scanning,
        r.check_interval_secs == secs,
{
}

} // verus!
