//! The supervisor's decisions: the process-wide single-flight scan guard,
//! the recurring-scan timer, and the graceful-restart handshake.  The
//! threads, sleeps and server handles that act on these decisions live
//! outside the library.

use vstd::prelude::*;

verus! {

/// The process-wide scan status.
#[derive(Clone, Copy, PartialEq, Eq, Structural)]
pub struct ScanStatus {
    pub running: bool,
    pub paused: bool,
    pub triggered: bool,
}

/// What a request to start a scan decided.
#[derive(Clone, Copy, PartialEq, Eq, Structural)]
pub enum StartDecision {
    Started,
    Running,
}

/// The textual form of a start decision, as reported to callers.
pub open spec fn start_decision_text(d: StartDecision) -> Seq<char> {
    match d {
        StartDecision::Started => "Started"@,
        StartDecision::Running => "Running"@,
    }
}

impl StartDecision {
    /// The textual form of the decision.
    pub fn to_text(&self) -> (r: String)
        ensures
            r@ == start_decision_text(*self),
    {
        match self {
            StartDecision::Started => String::from_str("Started"),
            StartDecision::Running => String::from_str("Running"),
        }
    }
}

impl ScanStatus {
    /// The idle status a process starts in: not running, paused.
    pub fn idle() -> (r: ScanStatus)
        ensures
            !r.running,
            r.paused,
            !r.triggered,
    {
        ScanStatus { running: false, paused: true, triggered: false }
    }

    /// The single-flight guard: a start request on a running status changes
    /// nothing and reports `Running`; otherwise the scan is marked running
    /// and unpaused and the request reports `Started`.  At most one scan
    /// runs at a time.
    pub fn try_start(&mut self) -> (r: StartDecision)
        ensures
            old(self).running ==> r == StartDecision::Running && *final(self) == *old(self),
            !old(self).running ==> r == StartDecision::Started && *final(self) == (ScanStatus {
                running: true,
                paused: false,
                ..*old(self)
            }),
            final(self).running,
    {
        if self.running {
            StartDecision::Running
        } else {
            self.running = true;
            self.paused = false;
            StartDecision::Started
        }
    }

    /// Marks the scan finished: not running, paused again.
    pub fn finish(&mut self)
        ensures
            *final(self) == (ScanStatus { running: false, paused: true, ..*old(self) }),
    {
        self.running = false;
        self.paused = true;
    }
}

/// Whether the recurring-scan timer runs at all: a configured repeat of 0
/// hours disables it, and its worker exits without ever firing a scan.
pub open spec fn spec_timer_enabled(repeat_hours: u32) -> bool {
    repeat_hours > 0
}

/// Whether the recurring-scan timer runs at all.
pub fn timer_enabled(repeat_hours: u32) -> (r: bool)
    ensures
        r == spec_timer_enabled(repeat_hours),
{
    repeat_hours > 0
}

/// The sleep between recurring scans, in seconds.
pub fn repeat_seconds(repeat_hours: u32) -> (r: u64)
    ensures
        r == repeat_hours * 3600,
{
    (repeat_hours as u64) * 3600
}

/// One one-second tick of the recurring-scan timer: the counter grows until
/// it passes the configured period, then a scan fires and the counter
/// starts over.  A fire happens exactly when the grown counter passes the
/// period.
pub fn timer_tick(counter: u64, period_seconds: u64) -> (r: (u64, bool))
    requires
        counter < 0xffff_ffff_ffff_ffff,
    ensures
        r.1 == (counter + 1 > period_seconds),
        r.1 ==> r.0 == 0,
        !r.1 ==> r.0 == counter + 1,
{
    let next = counter + 1;
    if next > period_seconds {
        (0, true)
    } else {
        (next, false)
    }
}

/// The graceful-restart handshake: the supervisor owns a stop flag beside
/// the server handle.  Registering the handle clears the flag; a
/// configuration save stops the server gracefully with the flag set.
#[derive(Clone, Copy, PartialEq, Eq, Structural)]
pub struct StopFlag {
    pub registered: bool,
    pub stopped: bool,
}

impl StopFlag {
    /// A fresh handshake: nothing registered, nothing stopped.
    pub fn new() -> (r: StopFlag)
        ensures
            !r.registered,
            !r.stopped,
    {
        StopFlag { registered: false, stopped: false }
    }

    /// Registers the server handle: the flag is cleared.
    pub fn register(&mut self)
        ensures
            *final(self) == (StopFlag { registered: true, stopped: false }),
    {
        self.registered = true;
        self.stopped = false;
    }

    /// Requests a graceful stop: the flag is set.
    pub fn stop(&mut self)
        ensures
            *final(self) == (StopFlag { stopped: true, ..*old(self) }),
    {
        self.stopped = true;
    }

    /// Whether the outer driver restarts the server after it exits: only an
    /// exit that the handshake stopped asks for a restart; any other exit
    /// ends the process.
    pub fn restart_required(&self) -> (r: bool)
        ensures
            r == self.stopped,
    {
        self.stopped
    }
}

} // verus!
