//! Watching a process that may have stalled: when it is idle for too long, and
//! what is done about it.
//!
//! Times are in nanoseconds from the Unix epoch.

use vstd::prelude::*;

use crate::command::CommandLine;
use crate::text;

verus! {

/// Nanoseconds in a second.
pub const SECOND: i128 = 1_000_000_000;

/// So many seconds pass before each look at the process.
pub const LOOK_EVERY: u64 = 5;

/// So many seconds more pass while it is not known which process to look at.
pub const WAIT_FOR_PROCESS: u64 = 1;

/// After more than so many idle seconds there is a warning.
pub const WARN_AFTER: u64 = 60;

/// After more than so many idle seconds there is an alert by mail.
pub const ALERT_AFTER: u64 = 1800;

/// A time that the system's clock can show: its seconds fit in 64 bits.
pub open spec fn is_instant(t: i128) -> bool {
    -0x8000_0000_0000_0000 * SECOND <= t < 0x8000_0000_0000_0000 * SECOND
}

fn instant(t: i128) -> (yes: bool)
    ensures
        yes == is_instant(t),
{
    -0x8000_0000_0000_0000 * SECOND <= t && t < 0x8000_0000_0000_0000 * SECOND
}

/// What is known of the process.
#[derive(PartialEq, Eq, Structural, Clone, Copy, Debug)]
pub struct Monitor {
    /// When the process was last seen to work.
    pub last_activity: i128,
    /// The processor time that it had used by then.
    pub last_cpu_time: u64,
    /// There was a warning since.
    pub warned: bool,
}

/// What one look at the process shows.
#[derive(PartialEq, Eq, Clone, Copy, Debug)]
pub enum Look {
    /// It is not known which process to look at.
    Unknown,
    /// The process is gone.
    Gone,
    /// The process is there.
    Alive {
        /// The processor time that it used, for itself and in the system, where
        /// that can be read.
        cpu: Option<(u64, u64)>,
        /// When that was read.
        seen: i128,
        /// The time now.
        now: i128,
    },
}

/// What follows from it.
#[derive(PartialEq, Eq, Structural, Clone, Copy, Debug)]
pub enum Verdict {
    /// Wait until it is known which process to look at.
    Pause,
    /// Look no more.
    Stop,
    /// Go on looking. A warning is due, or an alert, after so many idle seconds.
    Watch { warn: Option<u64>, alert: Option<u64> },
}

/// The process used processor time since it was last seen to work.
pub open spec fn worked(state: Monitor, cpu: Option<(u64, u64)>) -> bool {
    cpu matches Some((user, system)) && user + system != state.last_cpu_time
}

/// What is known after a look at the process at the time `seen`.
pub open spec fn noted(state: Monitor, cpu: Option<(u64, u64)>, seen: i128) -> Monitor {
    match cpu {
        Some((user, system)) if user + system != state.last_cpu_time => Monitor {
            last_activity: seen,
            last_cpu_time: (user + system) as u64,
            warned: false,
        },
        _ => state,
    }
}

/// For how many whole seconds the process has been idle.
pub open spec fn idle_seconds(state: Monitor, now: i128) -> int {
    (now - state.last_activity) / SECOND as int
}

/// A warning is due.
pub open spec fn warning_due(state: Monitor, now: i128) -> bool {
    idle_seconds(state, now) > WARN_AFTER && !state.warned
}

/// An alert is due.
pub open spec fn alert_due(state: Monitor, now: i128) -> bool {
    idle_seconds(state, now) > ALERT_AFTER
}

/// `amount` where it is due.
pub open spec fn if_due(due: bool, amount: int) -> Option<u64> {
    if due {
        Some(amount as u64)
    } else {
        None
    }
}

/// The look can be taken: processor times can be added up, the clock shows
/// times that it can show, and it did not go back since the process was last
/// seen to work.
pub open spec fn look_makes_sense(state: Monitor, look: Look) -> bool {
    match look {
        Look::Alive { cpu, seen, now } => {
            &&& (cpu matches Some((user, system)) ==> user + system <= u64::MAX)
            &&& is_instant(seen)
            &&& is_instant(now)
            &&& noted(state, cpu, seen).last_activity <= now
        },
        _ => true,
    }
}

/// What is known after the look.
pub open spec fn state_after(state: Monitor, look: Look) -> Monitor {
    match look {
        Look::Alive { cpu, seen, now } => {
            let noted = noted(state, cpu, seen);
            Monitor { warned: noted.warned || warning_due(noted, now), ..noted }
        },
        _ => state,
    }
}

/// What follows from the look.
pub open spec fn verdict_of(state: Monitor, look: Look) -> Verdict {
    match look {
        Look::Unknown => Verdict::Pause,
        Look::Gone => Verdict::Stop,
        Look::Alive { cpu, seen, now } => {
            let noted = noted(state, cpu, seen);
            let idle = idle_seconds(noted, now);
            Verdict::Watch {
                warn: if_due(warning_due(noted, now), idle),
                alert: if_due(alert_due(noted, now), idle),
            }
        },
    }
}

impl Monitor {
    /// The clock could show the time of the last activity.
    pub open spec fn wf(self) -> bool {
        is_instant(self.last_activity)
    }

    /// Starts to watch at the time `now`.
    pub fn new(now: i128) -> (monitor: Monitor)
        requires
            is_instant(now),
        ensures
            monitor == (Monitor { last_activity: now, last_cpu_time: 0, warned: false }),
            monitor.wf(),
    {
        Monitor { last_activity: now, last_cpu_time: 0, warned: false }
    }

    /// Whether the look can be taken.
    pub fn accepts(&self, look: Look) -> (yes: bool)
        ensures
            yes == look_makes_sense(*self, look),
    {
        match look {
            Look::Alive { cpu, seen, now } => {
                let since: i128 = match cpu {
                    Some((user, system)) => {
                        if user > u64::MAX - system {
                            return false;
                        }
                        if user + system != self.last_cpu_time {
                            seen
                        } else {
                            self.last_activity
                        }
                    },
                    None => self.last_activity,
                };
                instant(seen) && instant(now) && since <= now
            },
            _ => true,
        }
    }

    /// One look at the process.
    pub fn look(&mut self, look: Look) -> (verdict: Verdict)
        requires
            old(self).wf(),
            look_makes_sense(*old(self), look),
        ensures
            *final(self) == state_after(*old(self), look),
            verdict == verdict_of(*old(self), look),
            final(self).wf(),
    {
        match look {
            Look::Unknown => Verdict::Pause,
            Look::Gone => Verdict::Stop,
            Look::Alive { cpu, seen, now } => {
                if let Some((user, system)) = cpu {
                    let cpu_time: u64 = user + system;
                    if cpu_time != self.last_cpu_time {
                        self.last_activity = seen;
                        self.last_cpu_time = cpu_time;
                        self.warned = false;
                    }
                }
                let idle: u64 = ((now - self.last_activity) / SECOND) as u64;
                let warn: Option<u64> = if idle > WARN_AFTER && !self.warned {
                    Some(idle)
                } else {
                    None
                };
                if warn.is_some() {
                    self.warned = true;
                }
                let alert: Option<u64> = if idle > ALERT_AFTER {
                    Some(idle)
                } else {
                    None
                };
                Verdict::Watch { warn, alert }
            },
        }
    }

    /// Notes that an alert was sent; the idle time is counted anew from `now`.
    pub fn alerted(&mut self, now: i128)
        requires
            is_instant(now),
        ensures
            *final(self) == (Monitor { last_activity: now, warned: false, ..*old(self) }),
            final(self).wf(),
            forall|cpu: Option<(u64, u64)>, seen: i128, later: i128|
                now <= seen <= later < now + 61 * SECOND ==> #[trigger] verdict_of(
                    *final(self),
                    (Look::Alive { cpu, seen, now: later }),
                ) == (Verdict::Watch { warn: None, alert: None }),
    {
        self.warned = false;
        self.last_activity = now;
    }
}

/// The warning about the process `pid`.
pub fn warning_text(pid: i32, idle: u64) -> (message: String)
    ensures
        message@ == "\n[WARN] Process "@ + text::signed_decimal(pid as int)
            + " has been idle (no CPU usage) for "@ + text::decimal(idle as nat)
            + "s. Kill? [y/N]"@,
{
    let mut message = "\n[WARN] Process ".to_owned();
    text::push_signed_decimal(&mut message, pid);
    message.append(" has been idle (no CPU usage) for ");
    text::push_decimal(&mut message, idle as u128);
    message.append("s. Kill? [y/N]");
    message
}

/// The command that sends an alert, which it reads from its standard input.
pub fn alert_command() -> (line: CommandLine)
    ensures
        line@.program == "mail"@,
        line@.args == seq!["-s"@, "Archiver Alert: Stalled Process"@, "lou@samsung"@],
{
    CommandLine::new("mail").arg("-s").arg("Archiver Alert: Stalled Process").arg("lou@samsung")
}

/// What an alert says.
pub fn alert_text(idle: u64) -> (message: String)
    ensures
        message@ == "Process has been idle for "@ + text::decimal(idle as nat) + " seconds"@,
{
    let mut message = "Process has been idle for ".to_owned();
    text::push_decimal(&mut message, idle as u128);
    message.append(" seconds");
    message
}

/// A process that has used processor time since the last look, and is looked at
/// without delay, causes neither a warning nor an alert.
pub proof fn law_busy_process_is_left_alone(
    state: Monitor,
    cpu: Option<(u64, u64)>,
    seen: i128,
    now: i128,
)
    requires
        worked(state, cpu),
        seen <= now < seen + 61 * SECOND,
    ensures
        verdict_of(state, (Look::Alive { cpu, seen, now })) == (Verdict::Watch {
            warn: None,
            alert: None,
        }),
{
}

/// After a warning there is no other until the process works again or an alert
/// was sent.
pub proof fn law_warned_once(state: Monitor, cpu: Option<(u64, u64)>, seen: i128, now: i128)
    requires
        state.warned,
        !worked(state, cpu),
    ensures
        verdict_of(state, (Look::Alive { cpu, seen, now })) matches Verdict::Watch { warn, .. }
            && warn is None,
        state_after(state, (Look::Alive { cpu, seen, now })) == state,
{
}

/// An alert comes only when the process has been idle for more than half an
/// hour, and never without a warning before it or together with it.
pub proof fn law_alert_follows_warning(
    state: Monitor,
    cpu: Option<(u64, u64)>,
    seen: i128,
    now: i128,
)
    requires
        verdict_of(state, (Look::Alive { cpu, seen, now })) matches Verdict::Watch { alert, .. }
            && alert is Some,
    ensures
        now - noted(state, cpu, seen).last_activity > 1800 * SECOND,
        state_after(state, (Look::Alive { cpu, seen, now })).warned,
{
}

/// After an alert at `sent` the process has to be idle for more than a minute
/// again before there is another warning, whatever it does in between.
pub proof fn law_alert_starts_over(
    state: Monitor,
    sent: i128,
    cpu: Option<(u64, u64)>,
    seen: i128,
    now: i128,
)
    requires
        sent <= seen <= now < sent + 61 * SECOND,
    ensures
        verdict_of(
            (Monitor { last_activity: sent, warned: false, ..state }),
            (Look::Alive { cpu, seen, now }),
        ) == (Verdict::Watch { warn: None, alert: None }),
{
}

/// What one look at a process shows and changes, by the clock. It has been idle
/// since it was last seen to work, which is now if its processor time is not the
/// one noted. After more than 60 whole seconds there is one warning, until it
/// works again; after more than 1800 there is an alert.
pub proof fn law_look_goes_by_the_clock(
    last_activity: i128,
    last_cpu_time: u64,
    warned: bool,
    cpu: Option<(u64, u64)>,
    seen: i128,
    now: i128,
)
    requires
        cpu matches Some((user, system)) ==> user + system <= u64::MAX,
    ensures
        ({
            let state = Monitor { last_activity, last_cpu_time, warned };
            let look = Look::Alive { cpu, seen, now };
            let total = match cpu {
                Some((user, system)) => (user + system) as u64,
                None => last_cpu_time,
            };
            let busy = total != last_cpu_time;
            let since = if busy {
                seen
            } else {
                last_activity
            };
            let idle = (now - since) / 1_000_000_000;
            let warn = if idle > 60 && (busy || !warned) {
                Some(idle as u64)
            } else {
                None
            };
            let alert = if idle > 1800 {
                Some(idle as u64)
            } else {
                None
            };
            &&& verdict_of(state, look) == (Verdict::Watch { warn, alert })
            &&& state_after(state, look) == (Monitor {
                last_activity: since,
                last_cpu_time: total,
                warned: (warned && !busy) || idle > 60,
            })
            &&& look_makes_sense(state, look) <==> {
                &&& -9_223_372_036_854_775_808_000_000_000 <= seen
                    < 9_223_372_036_854_775_808_000_000_000
                &&& -9_223_372_036_854_775_808_000_000_000 <= now
                    < 9_223_372_036_854_775_808_000_000_000
                &&& since <= now
            }
        }),
{
}

/// While it is not known which process to look at the monitor waits, and when the
/// process is gone it stops; neither changes what is known.
pub proof fn law_nothing_to_look_at(state: Monitor)
    ensures
        verdict_of(state, Look::Unknown) == Verdict::Pause,
        verdict_of(state, Look::Gone) == Verdict::Stop,
        state_after(state, Look::Unknown) == state,
        state_after(state, Look::Gone) == state,
        look_makes_sense(state, Look::Unknown),
        look_makes_sense(state, Look::Gone),
{
}

} // verus!
