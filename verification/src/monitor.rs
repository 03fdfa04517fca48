//! The continuous monitor: one forwarded local port per device, and the
//! cycle of header, status queries and pause.

use vstd::prelude::*;
use crate::descriptor::ConnectionDescriptor;
use crate::descriptor::DescriptorView;
use crate::error::ConfigField;
use crate::error::DutError;
use crate::error::DutErrorView;
use crate::registry::resolved_target;
use crate::registry::Registry;

verus! {

/// The local port of the first monitored device.
pub const MONITOR_BASE_PORT: u16 = 4022;

/// The pause between two refreshes of the status table, in seconds.
pub const MONITOR_INTERVAL_SECS: u64 = 5;

/// One monitored device: its label, how it is reached, and the local port
/// that is forwarded to it and to no other device.
#[derive(Debug)]
pub struct MonitorTarget {
    pub identity: String,
    pub descriptor: ConnectionDescriptor,
    pub port: u16,
}

/// The local port of the device at position `index`.
pub open spec fn port_of(index: int) -> int {
    MONITOR_BASE_PORT + index
}

/// Whether `count` devices can each have a port of their own.
pub open spec fn ports_suffice(count: int) -> bool {
    count <= 0x10000 - MONITOR_BASE_PORT
}

/// Whether the identifier at `i` is the first that stands for no device.
pub open spec fn first_unresolved(
    known: Map<Seq<char>, DescriptorView>,
    identifiers: Seq<String>,
    identity_file: Seq<char>,
    i: int,
) -> bool {
    &&& 0 <= i < identifiers.len()
    &&& resolved_target(known, identifiers[i]@, identity_file) is Err
    &&& forall|j: int|
        0 <= j < i ==> resolved_target(known, (#[trigger] identifiers[j])@, identity_file) is Ok
}

/// The targets of a monitor session: one per identifier, in their order,
/// with consecutive local ports from the base port on. Fails before
/// anything is opened where the ports do not suffice or an identifier
/// stands for no device.
pub fn monitor_targets(registry: &Registry, identifiers: &Vec<String>, identity_file: &str) -> (r:
    Result<Vec<MonitorTarget>, DutError>)
    ensures
        r is Ok <==> ports_suffice(identifiers@.len() as int) && forall|i: int|
            0 <= i < identifiers@.len() ==> resolved_target(
                registry@,
                (#[trigger] identifiers@[i])@,
                identity_file@,
            ) is Ok,
        r is Ok ==> r.unwrap()@.len() == identifiers@.len() && forall|i: int|
            0 <= i < identifiers@.len() ==> {
                &&& (#[trigger] r.unwrap()@[i]).identity@ == identifiers@[i]@
                &&& r.unwrap()@[i].port == port_of(i)
                &&& resolved_target(registry@, identifiers@[i]@, identity_file@) == Ok::<
                    _,
                    ConfigField,
                >(r.unwrap()@[i].descriptor@)
            },
        r is Err && !ports_suffice(identifiers@.len() as int) ==> r.unwrap_err()@
            == DutErrorView::Configuration(ConfigField::MonitorPorts),
        r is Err && ports_suffice(identifiers@.len() as int) ==> exists|i: int|
            first_unresolved(registry@, identifiers@, identity_file@, i) && r.unwrap_err()@
                == DutErrorView::Configuration(
                resolved_target(registry@, identifiers@[i]@, identity_file@)->Err_0,
            ),
{
    let base: usize = MONITOR_BASE_PORT as usize;
    if identifiers.len() > 0x10000 - base {
        return Err(DutError::Configuration(ConfigField::MonitorPorts));
    }
    let mut targets: Vec<MonitorTarget> = Vec::new();
    let mut i: usize = 0;
    while i < identifiers.len()
        invariant
            i <= identifiers.len() <= 0x10000 - MONITOR_BASE_PORT,
            base == MONITOR_BASE_PORT,
            targets@.len() == i,
            forall|k: int|
                0 <= k < i ==> resolved_target(
                    registry@,
                    (#[trigger] identifiers@[k])@,
                    identity_file@,
                ) is Ok,
            forall|k: int|
                0 <= k < i ==> {
                    &&& (#[trigger] targets@[k]).identity@ == identifiers@[k]@
                    &&& targets@[k].port == port_of(k)
                    &&& resolved_target(registry@, identifiers@[k]@, identity_file@) == Ok::<
                        _,
                        ConfigField,
                    >(targets@[k].descriptor@)
                },
        decreases identifiers.len() - i,
    {
        match registry.resolve(identifiers[i].as_str(), identity_file) {
            Ok(descriptor) => {
                let port: u16 = (base + i) as u16;
                targets.push(MonitorTarget { identity: identifiers[i].clone(), descriptor, port });
            },
            Err(e) => {
                proof {
                    assert(first_unresolved(registry@, identifiers@, identity_file@, i as int));
                }
                return Err(e);
            },
        }
        i = i + 1;
    }
    Ok(targets)
}

/// Consecutive ports from the base port on are distinct: no two devices
/// of a session share one, and each is one above the one before.
pub proof fn lemma_ports_are_exclusive(ports: Seq<u16>)
    requires
        forall|i: int| 0 <= i < ports.len() ==> #[trigger] ports[i] == port_of(i),
    ensures
        ports.len() > 0 ==> ports[0] == MONITOR_BASE_PORT,
        forall|i: int| 0 <= i && i + 1 < ports.len() ==> #[trigger] ports[i + 1] == ports[i] + 1,
        forall|i: int, j: int|
            0 <= i < ports.len() && 0 <= j < ports.len() && i != j ==> #[trigger] ports[i]
                != #[trigger] ports[j],
{
    assert forall|i: int| 0 <= i && i + 1 < ports.len() implies #[trigger] ports[i + 1] == ports[i]
        + 1 by {
        assert(ports[i] == port_of(i));
    }
}

/// What the monitor does next.
#[derive(Debug, Clone, Copy, PartialEq, Eq, Structural)]
pub enum MonitorStep {
    /// Clear the screen and draw the header of the table.
    DrawHeader,
    /// Query the device at this position and print its line.
    Poll(usize),
    /// Pause for this many seconds.
    Sleep(u64),
    /// The session is over: release every forwarded port.
    Stop,
}

/// Where the monitor stands within a cycle.
#[derive(Debug, Clone, Copy, PartialEq, Eq, Structural)]
pub enum Phase {
    Header,
    Poll(usize),
    Pause,
}

/// The state of a monitor session between two steps.
#[derive(Debug, Clone, Copy, PartialEq, Eq, Structural)]
pub struct MonitorLoop {
    /// The number of monitored devices.
    pub targets: usize,
    /// What is due next within the cycle.
    pub phase: Phase,
    /// The number of cycles left to begin; `None` where the session runs
    /// until it is interrupted.
    pub cycles: Option<u64>,
    /// Whether the session was cancelled or a query failed.
    pub stopped: bool,
}

/// Whether the session is over.
pub open spec fn is_over(state: MonitorLoop) -> bool {
    state.stopped || (state.phase == Phase::Header && state.cycles == Some(0u64))
}

/// The step that is due in `state`.
pub open spec fn step_of(state: MonitorLoop) -> MonitorStep {
    if is_over(state) {
        MonitorStep::Stop
    } else {
        match state.phase {
            Phase::Header => MonitorStep::DrawHeader,
            Phase::Poll(i) => if i < state.targets {
                MonitorStep::Poll(i)
            } else {
                MonitorStep::Sleep(MONITOR_INTERVAL_SECS)
            },
            Phase::Pause => MonitorStep::Sleep(MONITOR_INTERVAL_SECS),
        }
    }
}

/// The number of cycles left once one more has begun.
pub open spec fn one_cycle_less(cycles: Option<u64>) -> Option<u64> {
    match cycles {
        Some(n) => if n > 0 {
            Some((n - 1) as u64)
        } else {
            Some(0u64)
        },
        None => None,
    }
}

/// The state after the step that is due in `state` was handed out.
pub open spec fn advanced(state: MonitorLoop) -> MonitorLoop {
    if is_over(state) {
        state
    } else {
        match state.phase {
            Phase::Header => MonitorLoop {
                phase: if state.targets > 0 {
                    Phase::Poll(0)
                } else {
                    Phase::Pause
                },
                cycles: one_cycle_less(state.cycles),
                ..state
            },
            Phase::Poll(i) => MonitorLoop {
                phase: if i + 1 < state.targets {
                    Phase::Poll((i + 1) as usize)
                } else {
                    Phase::Pause
                },
                ..state
            },
            Phase::Pause => MonitorLoop { phase: Phase::Header, ..state },
        }
    }
}

/// The state after `n` steps from `state`.
pub open spec fn after_steps(state: MonitorLoop, n: nat) -> MonitorLoop
    decreases n,
{
    if n == 0 {
        state
    } else {
        advanced(after_steps(state, (n - 1) as nat))
    }
}

impl MonitorLoop {
    /// A session over `targets` devices that is about to draw its first
    /// header. `cycles` bounds the number of refreshes; `None` leaves the
    /// session running until it is stopped.
    pub fn new(targets: usize, cycles: Option<u64>) -> (r: Self)
        ensures
            r == (MonitorLoop { targets, phase: Phase::Header, cycles, stopped: false }),
    {
        MonitorLoop { targets, phase: Phase::Header, cycles, stopped: false }
    }

    /// Hands out the step that is due and moves on.
    pub fn next(&mut self) -> (step: MonitorStep)
        ensures
            step == step_of(*old(self)),
            *final(self) == advanced(*old(self)),
    {
        if self.stopped {
            return MonitorStep::Stop;
        }
        match self.phase {
            Phase::Header => {
                match self.cycles {
                    Some(n) => {
                        if n == 0 {
                            return MonitorStep::Stop;
                        }
                        self.cycles = Some(n - 1);
                    },
                    None => {},
                }
                self.phase = if self.targets > 0 {
                    Phase::Poll(0)
                } else {
                    Phase::Pause
                };
                MonitorStep::DrawHeader
            },
            Phase::Poll(i) => {
                if i < self.targets {
                    self.phase = if i + 1 < self.targets {
                        Phase::Poll(i + 1)
                    } else {
                        Phase::Pause
                    };
                    MonitorStep::Poll(i)
                } else {
                    self.phase = Phase::Pause;
                    MonitorStep::Sleep(MONITOR_INTERVAL_SECS)
                }
            },
            Phase::Pause => {
                self.phase = Phase::Header;
                MonitorStep::Sleep(MONITOR_INTERVAL_SECS)
            },
        }
    }

    /// Ends the session: a query failed, or the caller cancels. Every
    /// later step is `Stop`.
    pub fn stop(&mut self)
        ensures
            *final(self) == (MonitorLoop { stopped: true, ..*old(self) }),
            step_of(*final(self)) == MonitorStep::Stop,
            advanced(*final(self)) == *final(self),
    {
        self.stopped = true;
    }
}

/// While a cycle polls, it has reached the device at position `k` after
/// `k + 1` steps.
proof fn lemma_cycle_reaches(state: MonitorLoop, k: nat)
    requires
        state.phase == Phase::Header,
        !is_over(state),
        k < state.targets,
    ensures
        after_steps(state, k + 1) == (MonitorLoop {
            phase: Phase::Poll(k as usize),
            cycles: one_cycle_less(state.cycles),
            ..state
        }),
    decreases k,
{
    if k == 0 {
        assert(after_steps(state, 0) == state);
        assert(after_steps(state, 1) == advanced(after_steps(state, 0)));
    } else {
        lemma_cycle_reaches(state, (k - 1) as nat);
        assert(after_steps(state, k + 1) == advanced(after_steps(state, k)));
    }
}

/// One cycle of a running session draws the header, queries every device
/// once in the order of the list, and pauses; then the next cycle is due,
/// with one cycle less to go.
pub proof fn lemma_cycle(state: MonitorLoop)
    requires
        state.phase == Phase::Header,
        !is_over(state),
    ensures
        step_of(state) == MonitorStep::DrawHeader,
        forall|k: nat|
            k < state.targets ==> step_of(#[trigger] after_steps(state, k + 1))
                == MonitorStep::Poll(k as usize),
        step_of(after_steps(state, state.targets as nat + 1)) == MonitorStep::Sleep(
            MONITOR_INTERVAL_SECS,
        ),
        after_steps(state, state.targets as nat + 2) == (MonitorLoop {
            cycles: one_cycle_less(state.cycles),
            ..state
        }),
{
    assert forall|k: nat| k < state.targets implies step_of(#[trigger] after_steps(state, k + 1))
        == MonitorStep::Poll(k as usize) by {
        lemma_cycle_reaches(state, k);
    }
    let n = state.targets as nat;
    let paused = MonitorLoop {
        phase: Phase::Pause,
        cycles: one_cycle_less(state.cycles),
        ..state
    };
    if n == 0 {
        assert(after_steps(state, 0) == state);
        assert(after_steps(state, 1) == advanced(after_steps(state, 0)));
    } else {
        lemma_cycle_reaches(state, (n - 1) as nat);
        assert(after_steps(state, n + 1) == advanced(after_steps(state, n)));
    }
    assert(after_steps(state, n + 1) == paused);
    assert(after_steps(state, n + 2) == advanced(after_steps(state, n + 1)));
}

} // verus!
