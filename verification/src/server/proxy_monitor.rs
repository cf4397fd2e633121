//! Watches the local proxy: connects it, drops it when its port goes silent, and waits
//! longer and longer while the port stays silent.
use vstd::prelude::*;

verus! {

/// Milliseconds before the first look.
pub const FIRST_CHECK_MS: u64 = 200;

/// Milliseconds between looks at the port.
pub const PORT_CHECK_MS: u64 = 3000;

/// Milliseconds before a stale route is replaced.
pub const REPLACE_MS: u64 = 100;

/// Silent looks in a row before a pause.
pub const STRIKES_BEFORE_PAUSE: u32 = 5;

/// Seconds of the pause after a number of pauses.
pub open spec fn pause_seconds(round: nat) -> nat {
    if round == 0 {
        30
    } else if round == 1 {
        90
    } else {
        120
    }
}

/// The route that is set up at present.
#[derive(Clone, Copy, Debug, PartialEq, Eq, Structural)]
pub enum RouteState {
    /// None.
    Absent,
    /// A living one for the profile in use.
    Current,
    /// A dead one, or one for another profile.
    Stale,
}

/// What the monitor does next.
#[derive(Clone, Copy, Debug, PartialEq, Eq, Structural)]
pub enum MonitorStep {
    /// Takes down the route and reports that traffic goes direct.
    Disable,
    /// Nothing: no profile is in use and no route is set up.
    Idle,
    /// Looks whether the port answers.
    CheckPort,
    /// Takes down the stale route.
    DropStale,
    /// Takes down the route because its port went silent.
    DropSilent,
    /// The route is healthy.
    Healthy,
    /// The port is silent; the flag tells whether that is reported.
    Silent(bool),
    /// Sets up the route.
    Connect,
}

/// What the monitor remembers.
#[derive(Clone, Copy, Debug, PartialEq, Eq, Structural)]
pub struct ProxyMonitor {
    pub port_failures: u32,
    pub pause_round: u32,
    /// Milliseconds until the next look; nothing means until a change is announced.
    pub wait_ms: Option<u64>,
}

impl ProxyMonitor {
    /// Fewer silent looks than lead to a pause.
    pub open spec fn wf(self) -> bool {
        self.port_failures < STRIKES_BEFORE_PAUSE
    }

    /// Before the first look.
    pub fn new() -> (r: Self)
        ensures
            r.wf(),
            r.port_failures == 0,
            r.pause_round == 0,
            r.wait_ms == Some(FIRST_CHECK_MS),
    {
        ProxyMonitor { port_failures: 0, pause_round: 0, wait_ms: Some(FIRST_CHECK_MS) }
    }

    /// The wait is over, either in time or because a change was announced.
    pub fn wake(&mut self, announced: bool)
        requires
            old(self).wf(),
        ensures
            final(self).wf(),
            *final(self) == if announced || old(self).wait_ms is None {
                ProxyMonitor { port_failures: 0, pause_round: 0, ..*old(self) }
            } else {
                *old(self)
            },
    {
        if announced || self.wait_ms.is_none() {
            self.port_failures = 0;
            self.pause_round = 0;
        }
    }

    /// Decides by the profile in use and the route that is set up.
    pub fn look(&mut self, profile_active: bool, route: RouteState) -> (r: MonitorStep)
        requires
            old(self).wf(),
        ensures
            final(self).wf(),
            r == step_for(profile_active, route),
            *final(self) == looked(*old(self), profile_active, route),
    {
        if !profile_active {
            self.port_failures = 0;
            self.pause_round = 0;
            self.wait_ms = None;
            return match route {
                RouteState::Absent => MonitorStep::Idle,
                _ => MonitorStep::Disable,
            };
        }
        match route {
            RouteState::Stale => {
                self.wait_ms = Some(REPLACE_MS);
                MonitorStep::DropStale
            },
            _ => MonitorStep::CheckPort,
        }
    }

    /// Decides by whether the port answers; `connected` tells whether a route is set up.
    pub fn port_checked(&mut self, connected: bool, listening: bool) -> (r: MonitorStep)
        requires
            old(self).wf(),
        ensures
            final(self).wf(),
            r == step_for_port(*old(self), connected, listening),
            *final(self) == port_looked(*old(self), connected, listening),
    {
        if connected {
            self.port_failures = if listening {
                0
            } else {
                1
            };
            self.pause_round = 0;
            self.wait_ms = Some(PORT_CHECK_MS);
            return if listening {
                MonitorStep::Healthy
            } else {
                MonitorStep::DropSilent
            };
        }
        if listening {
            self.port_failures = 0;
            self.pause_round = 0;
            return MonitorStep::Connect;
        }
        let report = self.port_failures == 0;
        self.port_failures = self.port_failures + 1;
        if self.port_failures >= STRIKES_BEFORE_PAUSE {
            self.port_failures = 0;
            let pause: u64 = if self.pause_round == 0 {
                30
            } else if self.pause_round == 1 {
                90
            } else {
                120
            };
            self.pause_round = self.pause_round.saturating_add(1);
            self.wait_ms = Some(pause * 1000);
        } else {
            self.wait_ms = Some(PORT_CHECK_MS);
        }
        MonitorStep::Silent(report)
    }

    /// An attempt to set up the route is over, with or without success.
    pub fn connect_finished(&mut self)
        requires
            old(self).wf(),
        ensures
            final(self).wf(),
            *final(self) == (ProxyMonitor { wait_ms: Some(PORT_CHECK_MS), ..*old(self) }),
    {
        self.wait_ms = Some(PORT_CHECK_MS);
    }
}

/// What a look at the profile and the route leads to.
pub open spec fn step_for(profile_active: bool, route: RouteState) -> MonitorStep {
    if !profile_active {
        if route == RouteState::Absent {
            MonitorStep::Idle
        } else {
            MonitorStep::Disable
        }
    } else if route == RouteState::Stale {
        MonitorStep::DropStale
    } else {
        MonitorStep::CheckPort
    }
}

/// The state after a look at the profile and the route.
pub open spec fn looked(m: ProxyMonitor, profile_active: bool, route: RouteState) -> ProxyMonitor {
    if !profile_active {
        ProxyMonitor { port_failures: 0, pause_round: 0, wait_ms: None }
    } else if route == RouteState::Stale {
        ProxyMonitor { wait_ms: Some(REPLACE_MS), ..m }
    } else {
        m
    }
}

/// What a look at the port leads to.
pub open spec fn step_for_port(m: ProxyMonitor, connected: bool, listening: bool) -> MonitorStep {
    if connected {
        if listening {
            MonitorStep::Healthy
        } else {
            MonitorStep::DropSilent
        }
    } else if listening {
        MonitorStep::Connect
    } else {
        MonitorStep::Silent(m.port_failures == 0)
    }
}

/// The state after a look at the port.
pub open spec fn port_looked(m: ProxyMonitor, connected: bool, listening: bool) -> ProxyMonitor {
    if connected {
        ProxyMonitor {
            port_failures: if listening {
                0
            } else {
                1
            },
            pause_round: 0,
            wait_ms: Some(PORT_CHECK_MS),
        }
    } else if listening {
        ProxyMonitor { port_failures: 0, pause_round: 0, ..m }
    } else {
        after_silence(m)
    }
}

/// The state after a look at a silent port without a route: a short wait, or a pause
/// after enough of them.
pub open spec fn after_silence(m: ProxyMonitor) -> ProxyMonitor {
    if m.port_failures + 1 >= STRIKES_BEFORE_PAUSE {
        ProxyMonitor {
            port_failures: 0,
            pause_round: if m.pause_round == u32::MAX {
                u32::MAX
            } else {
                (m.pause_round + 1) as u32
            },
            wait_ms: Some((pause_seconds(m.pause_round as nat) * 1000) as u64),
        }
    } else {
        ProxyMonitor {
            port_failures: (m.port_failures + 1) as u32,
            pause_round: m.pause_round,
            wait_ms: Some(PORT_CHECK_MS),
        }
    }
}

/// The state after `n` looks at a silent port.
pub open spec fn silent_looks(m: ProxyMonitor, n: nat) -> ProxyMonitor
    decreases n,
{
    if n == 0 {
        m
    } else {
        after_silence(silent_looks(m, (n - 1) as nat))
    }
}

/// While the port stays silent, every fifth look is followed by a pause, of 30, then 90,
/// then always 120 seconds; the looks between are three seconds apart.
pub proof fn law_silence_schedule(m: ProxyMonitor, n: nat)
    requires
        m.port_failures == 0,
        m.pause_round == 0,
        0 < n < u32::MAX,
    ensures
        silent_looks(m, n).port_failures == n % 5,
        silent_looks(m, n).pause_round == n / 5,
        silent_looks(m, n).wait_ms == Some(
            if n % 5 == 0 {
                (pause_seconds((n / 5 - 1) as nat) * 1000) as u64
            } else {
                PORT_CHECK_MS
            },
        ),
    decreases n,
{
    if n > 1 {
        law_silence_schedule(m, (n - 1) as nat);
    }
    let before = silent_looks(m, (n - 1) as nat);
    if n == 1 {
        assert(before == m);
    }
}

/// Without a profile in use there is no route: one that is set up is taken down, and the
/// monitor waits until it is told of a change. A route that belongs to another profile is
/// replaced at once; else the port is looked at.
pub proof fn law_route_follows_the_profile(m: ProxyMonitor, route: RouteState)
    ensures
        step_for(false, RouteState::Absent) is Idle,
        step_for(false, RouteState::Current) is Disable,
        step_for(false, RouteState::Stale) is Disable,
        step_for(true, RouteState::Stale) is DropStale,
        step_for(true, RouteState::Absent) is CheckPort,
        step_for(true, RouteState::Current) is CheckPort,
        looked(m, false, route).wait_ms is None,
        looked(m, false, route).port_failures == 0 && looked(m, false, route).pause_round == 0,
        looked(m, true, RouteState::Stale).wait_ms == Some(100u64),
        looked(m, true, RouteState::Absent) == m && looked(m, true, RouteState::Current) == m,
{
}

/// A route stands exactly while the port answers: where it answers without a route, one is
/// set up, and where it is silent with one, the route is dropped, which counts as the first
/// failure. An answer forgets all failures. Silence is reported once.
pub proof fn law_route_follows_the_port(m: ProxyMonitor, connected: bool, listening: bool)
    ensures
        step_for_port(m, true, true) is Healthy,
        step_for_port(m, true, false) is DropSilent,
        step_for_port(m, false, true) is Connect,
        step_for_port(m, false, false) == MonitorStep::Silent(m.port_failures == 0),
        listening ==> port_looked(m, connected, true).port_failures == 0 && port_looked(
            m,
            connected,
            true,
        ).pause_round == 0,
        port_looked(m, true, false).port_failures == 1,
        port_looked(m, true, listening).wait_ms == Some(3000u64),
        port_looked(m, false, true).wait_ms == m.wait_ms,
        m.port_failures < 4 ==> port_looked(m, false, false).port_failures == m.port_failures + 1
            && port_looked(m, false, false).wait_ms == Some(3000u64) && port_looked(
            m,
            false,
            false,
        ).pause_round == m.pause_round,
        m.port_failures == 4 ==> port_looked(m, false, false).port_failures == 0 && port_looked(
            m,
            false,
            false,
        ).wait_ms == Some(
            if m.pause_round == 0 {
                30000u64
            } else if m.pause_round == 1 {
                90000u64
            } else {
                120000u64
            },
        ),
{
}

} // verus!
