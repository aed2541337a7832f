//! Power actions: which command carries each one out, and the single
//! pending scheduled action that a new schedule replaces.
use vstd::prelude::*;
use crate::error::{Platform, PowerError};

verus! {

/// The power action type.
#[derive(Debug, Clone, Copy, PartialEq, Eq, Structural)]
pub enum PowerMode {
    Shutdown,
    Suspend,
    Reboot,
    Lock,
    Logout,
}

pub open spec fn mode_name(m: PowerMode) -> Seq<char> {
    match m {
        PowerMode::Shutdown => "shutdown"@,
        PowerMode::Suspend => "suspend"@,
        PowerMode::Reboot => "reboot"@,
        PowerMode::Lock => "lock"@,
        PowerMode::Logout => "logout"@,
    }
}

impl PowerMode {
    /// The lowercase name under which the mode is shown and serialised.
    pub fn name(&self) -> (r: &'static str)
        ensures
            r@ == mode_name(*self),
    {
        match self {
            PowerMode::Shutdown => "shutdown",
            PowerMode::Suspend => "suspend",
            PowerMode::Reboot => "reboot",
            PowerMode::Lock => "lock",
            PowerMode::Logout => "logout",
        }
    }
}

/// An instant in UTC: whole seconds since the Unix epoch and the nanoseconds
/// past that second (a leap second shows as `nanos` of a billion or more).
#[derive(Debug, Clone, Copy, PartialEq, Eq, Structural)]
pub struct Timestamp {
    pub secs: i64,
    pub nanos: u32,
}

/// `a` is not later than `b`.
pub open spec fn not_after(a: Timestamp, b: Timestamp) -> bool {
    a.secs < b.secs || (a.secs == b.secs && a.nanos <= b.nanos)
}

impl Timestamp {
    /// Whether `self` is not later than `other`.
    pub fn not_after(&self, other: &Timestamp) -> (r: bool)
        ensures
            r == not_after(*self, *other),
    {
        self.secs < other.secs || (self.secs == other.secs && self.nanos <= other.nanos)
    }
}

/// A power action waiting for its time.
#[derive(Debug, Clone, Copy, PartialEq, Eq, Structural)]
pub struct ScheduledPowerTask {
    pub mode: PowerMode,
    pub execute_at: Timestamp,
}

/// What the caller does after asking for a power action.
#[derive(Debug, Clone, Copy, PartialEq, Eq, Structural)]
pub enum PowerPlan {
    /// Run the action now; nothing is scheduled.
    RunNow,
    /// Start a timer for the new task, after stopping the timer of `replaced`
    /// if there was one.
    Wait { replaced: Option<PowerMode> },
}

/// The pending scheduled action, if any.
pub struct PowerSchedule {
    pending: Option<ScheduledPowerTask>,
}

/// The pending task after a request for `mode` at `at`, made at `now`.
pub open spec fn pending_after_plan(
    pending: Option<ScheduledPowerTask>,
    mode: PowerMode,
    at: Option<Timestamp>,
    now: Timestamp,
) -> Option<ScheduledPowerTask> {
    match at {
        None => pending,
        Some(t) => if not_after(t, now) {
            pending
        } else {
            Some(ScheduledPowerTask { mode, execute_at: t })
        },
    }
}

/// What a request for `mode` at `at`, made at `now`, answers.
pub open spec fn plan_result(
    pending: Option<ScheduledPowerTask>,
    at: Option<Timestamp>,
    now: Timestamp,
) -> Result<PowerPlan, PowerError> {
    match at {
        None => Ok(PowerPlan::RunNow),
        Some(t) => if not_after(t, now) {
            Err(PowerError::TimestampInPast)
        } else {
            Ok(
                PowerPlan::Wait {
                    replaced: match pending {
                        Some(p) => Some(p.mode),
                        None => None,
                    },
                },
            )
        },
    }
}

impl PowerSchedule {
    pub closed spec fn view(&self) -> Option<ScheduledPowerTask> {
        self.pending
    }

    /// A schedule with nothing pending.
    pub fn new() -> (r: Self)
        ensures
            r.view() == None::<ScheduledPowerTask>,
    {
        PowerSchedule { pending: None }
    }

    /// The pending task.
    pub fn status(&self) -> (r: Option<ScheduledPowerTask>)
        ensures
            r == self.view(),
    {
        self.pending
    }

    /// Drops the pending task and returns its mode.
    pub fn cancel(&mut self) -> (r: Option<PowerMode>)
        ensures
            final(self).view() == None::<ScheduledPowerTask>,
            r == (match old(self).view() {
                Some(p) => Some(p.mode),
                None => None,
            }),
    {
        let r = match self.pending {
            Some(p) => Some(p.mode),
            None => None,
        };
        self.pending = None;
        r
    }

    /// Handles a request for `mode` at `at`, made at `now`: with no time the
    /// action runs now; a time not after `now` is refused; a later time
    /// replaces whatever was pending.
    pub fn plan(&mut self, mode: PowerMode, at: Option<Timestamp>, now: Timestamp) -> (r: Result<
        PowerPlan,
        PowerError,
    >)
        ensures
            r == plan_result(old(self).view(), at, now),
            final(self).view() == pending_after_plan(old(self).view(), mode, at, now),
    {
        match at {
            None => Ok(PowerPlan::RunNow),
            Some(t) => {
                if t.not_after(&now) {
                    Err(PowerError::TimestampInPast)
                } else {
                    let replaced = self.cancel();
                    self.pending = Some(ScheduledPowerTask { mode, execute_at: t });
                    Ok(PowerPlan::Wait { replaced })
                }
            },
        }
    }

    /// The timer of the pending task has run out: the task leaves the schedule
    /// and is handed back to be carried out.
    pub fn fire(&mut self) -> (r: Option<ScheduledPowerTask>)
        ensures
            r == old(self).view(),
            final(self).view() == None::<ScheduledPowerTask>,
    {
        let r = self.pending;
        self.pending = None;
        r
    }
}

/// Only one scheduled action is pending at a time: scheduling a second one
/// replaces the first, whatever was pending before.
pub proof fn law_schedule_replaces(
    pending: Option<ScheduledPowerTask>,
    m1: PowerMode,
    t1: Timestamp,
    m2: PowerMode,
    t2: Timestamp,
    now: Timestamp,
)
    requires
        !not_after(t1, now),
        !not_after(t2, now),
    ensures
        pending_after_plan(pending_after_plan(pending, m1, Some(t1), now), m2, Some(t2), now)
            == Some(ScheduledPowerTask { mode: m2, execute_at: t2 }),
        plan_result(pending_after_plan(pending, m1, Some(t1), now), Some(t2), now) == Ok::<
            PowerPlan,
            PowerError,
        >(PowerPlan::Wait { replaced: Some(m1) }),
{
}

/// A request for a time that is not in the future changes nothing and is
/// refused.
pub proof fn law_past_request_refused(
    pending: Option<ScheduledPowerTask>,
    mode: PowerMode,
    t: Timestamp,
    now: Timestamp,
)
    requires
        not_after(t, now),
    ensures
        pending_after_plan(pending, mode, Some(t), now) == pending,
        plan_result(pending, Some(t), now) == Err::<PowerPlan, PowerError>(
            PowerError::TimestampInPast,
        ),
{
}

/// The program and arguments that carry out `mode` on `platform`.
pub open spec fn power_command_spec(mode: PowerMode, platform: Platform) -> Option<
    (Seq<char>, Seq<Seq<char>>),
> {
    match platform {
        Platform::Linux => Some(
            match mode {
                PowerMode::Shutdown => ("shutdown"@, seq!["-h"@, "now"@]),
                PowerMode::Reboot => ("reboot"@, seq![]),
                PowerMode::Suspend => ("systemctl"@, seq!["suspend"@]),
                PowerMode::Lock => ("loginctl"@, seq!["lock-session"@]),
                PowerMode::Logout => ("loginctl"@, seq!["terminate-session"@, "self"@]),
            },
        ),
        Platform::MacOs => Some(
            match mode {
                PowerMode::Shutdown => ("shutdown"@, seq!["-h"@, "now"@]),
                PowerMode::Reboot => ("shutdown"@, seq!["-r"@, "now"@]),
                PowerMode::Suspend => ("pmset"@, seq!["sleepnow"@]),
                PowerMode::Lock => ("open"@, seq!["-a"@, "loginwindow"@]),
                PowerMode::Logout => (
                    "osascript"@,
                    seq!["-e"@, "tell application \"System Events\" to log out"@],
                ),
            },
        ),
        Platform::Windows => Some(
            match mode {
                PowerMode::Shutdown => ("shutdown"@, seq!["/s"@]),
                PowerMode::Reboot => ("shutdown"@, seq!["/r"@]),
                PowerMode::Suspend => (
                    "rundll32.exe"@,
                    seq!["powrprof.dll,SetSuspendState"@, "0,1,0"@],
                ),
                PowerMode::Lock => ("rundll32.exe"@, seq!["user32.dll,LockWorkStation"@]),
                PowerMode::Logout => ("shutdown"@, seq!["/l"@]),
            },
        ),
        Platform::Other => None,
    }
}

/// The views of a list of texts.
pub open spec fn views(v: Seq<&'static str>) -> Seq<Seq<char>> {
    v.map_values(|s: &'static str| s@)
}

/// System power manager.
#[derive(Debug)]
pub struct PowerManager;

impl PowerManager {
    /// The program and arguments that carry out `mode` on `platform`, or
    /// `UnsupportedOS` where the platform has none.
    pub fn command(mode: PowerMode, platform: Platform) -> (r: Result<
        (&'static str, Vec<&'static str>),
        PowerError,
    >)
        ensures
            match power_command_spec(mode, platform) {
                Some(c) => r matches Ok(v) && v.0@ == c.0 && views(v.1@) == c.1,
                None => r == Err::<(&'static str, Vec<&'static str>), PowerError>(
                    PowerError::UnsupportedOS,
                ),
            },
    {
        let r: (&'static str, Vec<&'static str>) = match platform {
            Platform::Linux => match mode {
                PowerMode::Shutdown => ("shutdown", vec!["-h", "now"]),
                PowerMode::Reboot => ("reboot", vec![]),
                PowerMode::Suspend => ("systemctl", vec!["suspend"]),
                PowerMode::Lock => ("loginctl", vec!["lock-session"]),
                PowerMode::Logout => ("loginctl", vec!["terminate-session", "self"]),
            },
            Platform::MacOs => match mode {
                PowerMode::Shutdown => ("shutdown", vec!["-h", "now"]),
                PowerMode::Reboot => ("shutdown", vec!["-r", "now"]),
                PowerMode::Suspend => ("pmset", vec!["sleepnow"]),
                PowerMode::Lock => ("open", vec!["-a", "loginwindow"]),
                PowerMode::Logout => (
                    "osascript",
                    vec!["-e", "tell application \"System Events\" to log out"],
                ),
            },
            Platform::Windows => match mode {
                PowerMode::Shutdown => ("shutdown", vec!["/s"]),
                PowerMode::Reboot => ("shutdown", vec!["/r"]),
                PowerMode::Suspend => ("rundll32.exe", vec!["powrprof.dll,SetSuspendState", "0,1,0"]),
                PowerMode::Lock => ("rundll32.exe", vec!["user32.dll,LockWorkStation"]),
                PowerMode::Logout => ("shutdown", vec!["/l"]),
            },
            Platform::Other => {
                return Err(PowerError::UnsupportedOS);
            },
        };
        assert(views(r.1@) =~= power_command_spec(mode, platform).unwrap().1);
        Ok(r)
    }
}

/// Every supported platform has a command for every power action, and no
/// two actions share one: rebooting never runs what shuts down, suspending
/// never runs what locks, and so on. Only the three desktop platforms are
/// supported.
pub proof fn law_power_commands_distinct(platform: Platform, a: PowerMode, b: PowerMode)
    ensures
        (platform == Platform::Other) <==> power_command_spec(a, platform) is None,
        a != b && platform != Platform::Other ==> power_command_spec(a, platform)
            != power_command_spec(b, platform),
{
    lemma_programs_differ();
    lemma_switches_differ();
    if a != b && platform != Platform::Other {
        let ca = power_command_spec(a, platform).unwrap();
        let cb = power_command_spec(b, platform).unwrap();
        assert(ca.0 != cb.0 || ca.1.len() != cb.1.len() || ca.1[0] != cb.1[0]);
    }
}

/// Where an action runs the `shutdown` program, its switch says which
/// action it is: halt or power off for shutting down (`-h` / `/s`),
/// restart for rebooting (`-r` / `/r`), log off for logging out (`/l`).
/// On Linux rebooting runs `reboot`.
pub proof fn law_shutdown_switches(mode: PowerMode, platform: Platform)
    ensures
        match power_command_spec(mode, platform) {
            Some(c) => c.0 == "shutdown"@ ==> {
                &&& c.1.len() >= 1
                &&& ((c.1[0] == "-h"@ || c.1[0] == "/s"@) <==> mode == PowerMode::Shutdown)
                &&& ((c.1[0] == "-r"@ || c.1[0] == "/r"@) <==> mode == PowerMode::Reboot)
                &&& ((c.1[0] == "/l"@) <==> mode == PowerMode::Logout)
            },
            None => true,
        },
        platform == Platform::Linux ==> power_command_spec(PowerMode::Reboot, platform) == Some(
            ("reboot"@, Seq::<Seq<char>>::empty()),
        ),
        platform == Platform::Windows ==> power_command_spec(PowerMode::Reboot, platform) == Some(
            ("shutdown"@, seq!["/r"@]),
        ),
{
    lemma_programs_differ();
    lemma_switches_differ();
}

/// The programs that power actions run are told apart by their names.
proof fn lemma_programs_differ()
    ensures
        "shutdown"@.len() == 8,
        "reboot"@.len() == 6,
        "systemctl"@.len() == 9,
        "loginctl"@.len() == 8,
        "pmset"@.len() == 5,
        "open"@.len() == 4,
        "osascript"@.len() == 9,
        "rundll32.exe"@.len() == 12,
        "shutdown"@ != "loginctl"@,
{
    reveal_strlit("shutdown");
    reveal_strlit("reboot");
    reveal_strlit("systemctl");
    reveal_strlit("loginctl");
    reveal_strlit("pmset");
    reveal_strlit("open");
    reveal_strlit("osascript");
    reveal_strlit("rundll32.exe");
    assert("shutdown"@[0] != "loginctl"@[0]);
}

/// The switches of the `shutdown` program are told apart by their letter.
proof fn lemma_switches_differ()
    ensures
        "-h"@ != "-r"@,
        "/s"@ != "/r"@,
        "/s"@ != "/l"@,
        "/r"@ != "/l"@,
        "-h"@ != "/s"@,
        "-h"@ != "/r"@,
        "-h"@ != "/l"@,
        "-r"@ != "/s"@,
        "-r"@ != "/r"@,
        "-r"@ != "/l"@,
{
    reveal_strlit("-h");
    reveal_strlit("-r");
    reveal_strlit("/s");
    reveal_strlit("/r");
    reveal_strlit("/l");
    assert("-h"@[1] != "-r"@[1]);
    assert("/s"@[1] != "/r"@[1]);
    assert("/s"@[1] != "/l"@[1]);
    assert("/r"@[1] != "/l"@[1]);
    assert("-h"@[0] != "/s"@[0]);
    assert("-h"@[0] != "/r"@[0]);
    assert("-h"@[0] != "/l"@[0]);
    assert("-r"@[0] != "/s"@[0]);
    assert("-r"@[0] != "/r"@[0]);
    assert("-r"@[0] != "/l"@[0]);
}

} // verus!
