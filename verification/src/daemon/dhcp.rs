//! The life of one interface: getting a lease, answering for it, losing it.

use crate::daemon::lease::LeaseInfo;
use crate::net::Ipv4Addr;
use vstd::prelude::*;

verus! {

/// How long to wait before a DHCP client is started anew, in seconds.
pub const RESTART_PAUSE_SECS: u64 = 5;

/// What has to be done next for an interface.
#[derive(Debug, Clone, Copy, PartialEq, Eq, Structural)]
pub enum DhcpAction {
    /// Start a DHCP client.
    StartClient,
    /// Wait for the client's next event.
    AwaitEvent,
    /// Take the packet programs off.
    RemoveInterface,
    /// Attach the packet programs for this address.
    AddInterface(Ipv4Addr),
    /// Record the lease.
    RecordLease(LeaseInfo),
    /// Forget the recorded lease.
    ForgetLease,
    /// Stop keeping the gateway's neighbour entry.
    AbortNeigh,
    /// Start keeping the gateway's neighbour entry.
    StartNeigh(LeaseInfo),
    /// Wait this many seconds.
    Sleep(u64),
}

/// What came of it.
#[derive(Debug)]
pub enum DhcpOutcome {
    Done,
    Failed,
    /// The client got or renewed a lease.
    Lease { yiaddr: Ipv4Addr, gateways: Option<Vec<Ipv4Addr>> },
    /// The client failed.
    ClientError,
    /// The client has ended.
    ClientEnded,
}

/// Where an interface stands.
#[derive(Debug, Clone, Copy, PartialEq, Eq, Structural)]
pub enum Phase {
    Starting,
    Waiting,
    /// A new lease: the programs come off before they go back on.
    Detaching(LeaseInfo),
    Attaching(LeaseInfo),
    Recording(LeaseInfo),
    Replacing(LeaseInfo),
    Neighbouring(LeaseInfo),
    /// The programs could not be attached.
    Dropping,
    /// The client failed.
    FailDetaching,
    FailDropping,
    /// The client is over.
    EndNeigh,
    EndDetaching,
    EndDropping,
    Pausing,
}

/// An interface's place in its life, and whether its gateway's neighbour
/// entry is being kept.
#[derive(Debug, Clone, Copy, PartialEq, Eq, Structural)]
pub struct DhcpRun {
    pub phase: Phase,
    pub neigh: bool,
}

/// The gateway of a lease: the first that it names.
pub open spec fn first_gateway(gateways: Option<Vec<Ipv4Addr>>) -> Option<Ipv4Addr> {
    match gateways {
        Some(g) if g@.len() > 0 => Some(g@[0]),
        _ => None,
    }
}

/// Where the phase after a lease stops an old neighbour task, if one runs.
pub open spec fn replacing(info: LeaseInfo, neigh: bool) -> Phase {
    if neigh {
        Phase::Replacing(info)
    } else {
        Phase::Neighbouring(info)
    }
}

/// Where the end of a client begins.
pub open spec fn ending(neigh: bool) -> Phase {
    if neigh {
        Phase::EndNeigh
    } else {
        Phase::EndDetaching
    }
}

impl DhcpRun {
    /// What has to be done in a phase.
    pub open spec fn action(self) -> DhcpAction {
        match self.phase {
            Phase::Starting => DhcpAction::StartClient,
            Phase::Waiting => DhcpAction::AwaitEvent,
            Phase::Detaching(_) => DhcpAction::RemoveInterface,
            Phase::Attaching(info) => DhcpAction::AddInterface(info.ip),
            Phase::Recording(info) => DhcpAction::RecordLease(info),
            Phase::Replacing(_) => DhcpAction::AbortNeigh,
            Phase::Neighbouring(info) => DhcpAction::StartNeigh(info),
            Phase::Dropping => DhcpAction::ForgetLease,
            Phase::FailDetaching => DhcpAction::RemoveInterface,
            Phase::FailDropping => DhcpAction::ForgetLease,
            Phase::EndNeigh => DhcpAction::AbortNeigh,
            Phase::EndDetaching => DhcpAction::RemoveInterface,
            Phase::EndDropping => DhcpAction::ForgetLease,
            Phase::Pausing => DhcpAction::Sleep(RESTART_PAUSE_SECS),
        }
    }

    /// Where the interface stands once the action came out.
    pub open spec fn after(self, outcome: DhcpOutcome) -> DhcpRun {
        match self.phase {
            Phase::Starting => DhcpRun {
                phase: if outcome is Failed {
                    Phase::Pausing
                } else {
                    Phase::Waiting
                },
                ..self
            },
            Phase::Waiting => DhcpRun {
                phase: match outcome {
                    DhcpOutcome::Lease { yiaddr, gateways } => match first_gateway(gateways) {
                        Some(gateway) => Phase::Detaching(LeaseInfo { ip: yiaddr, gateway }),
                        None => Phase::Waiting,
                    },
                    DhcpOutcome::ClientError => Phase::FailDetaching,
                    DhcpOutcome::ClientEnded => ending(self.neigh),
                    _ => Phase::Waiting,
                },
                ..self
            },
            Phase::Detaching(info) => DhcpRun { phase: Phase::Attaching(info), ..self },
            Phase::Attaching(info) => DhcpRun {
                phase: if outcome is Failed {
                    Phase::Dropping
                } else {
                    Phase::Recording(info)
                },
                ..self
            },
            Phase::Recording(info) => DhcpRun { phase: replacing(info, self.neigh), ..self },
            Phase::Replacing(info) => DhcpRun { phase: Phase::Neighbouring(info), neigh: false },
            Phase::Neighbouring(_) => DhcpRun { phase: Phase::Waiting, neigh: true },
            Phase::Dropping => DhcpRun { phase: Phase::Waiting, ..self },
            Phase::FailDetaching => DhcpRun { phase: Phase::FailDropping, ..self },
            Phase::FailDropping => DhcpRun { phase: ending(self.neigh), ..self },
            Phase::EndNeigh => DhcpRun { phase: Phase::EndDetaching, neigh: false },
            Phase::EndDetaching => DhcpRun { phase: Phase::EndDropping, ..self },
            Phase::EndDropping => DhcpRun { phase: Phase::Pausing, ..self },
            Phase::Pausing => DhcpRun { phase: Phase::Starting, ..self },
        }
    }

    pub fn new() -> (r: Self)
        ensures
            r == (DhcpRun { phase: Phase::Starting, neigh: false }),
    {
        DhcpRun { phase: Phase::Starting, neigh: false }
    }

    /// What has to be done next.
    pub fn due(&self) -> (a: DhcpAction)
        ensures
            a == self.action(),
    {
        match self.phase {
            Phase::Starting => DhcpAction::StartClient,
            Phase::Waiting => DhcpAction::AwaitEvent,
            Phase::Detaching(_) => DhcpAction::RemoveInterface,
            Phase::Attaching(info) => DhcpAction::AddInterface(info.ip),
            Phase::Recording(info) => DhcpAction::RecordLease(info),
            Phase::Replacing(_) => DhcpAction::AbortNeigh,
            Phase::Neighbouring(info) => DhcpAction::StartNeigh(info),
            Phase::Dropping => DhcpAction::ForgetLease,
            Phase::FailDetaching => DhcpAction::RemoveInterface,
            Phase::FailDropping => DhcpAction::ForgetLease,
            Phase::EndNeigh => DhcpAction::AbortNeigh,
            Phase::EndDetaching => DhcpAction::RemoveInterface,
            Phase::EndDropping => DhcpAction::ForgetLease,
            Phase::Pausing => DhcpAction::Sleep(RESTART_PAUSE_SECS),
        }
    }

    /// Takes what came of it.
    pub fn report(&mut self, outcome: &DhcpOutcome)
        ensures
            *final(self) == old(self).after(*outcome),
    {
        let failed: bool = match outcome {
            DhcpOutcome::Failed => true,
            _ => false,
        };
        let end: Phase = if self.neigh {
            Phase::EndNeigh
        } else {
            Phase::EndDetaching
        };
        match self.phase {
            Phase::Starting => {
                self.phase = if failed {
                    Phase::Pausing
                } else {
                    Phase::Waiting
                };
            },
            Phase::Waiting => {
                match outcome {
                    DhcpOutcome::Lease { yiaddr, gateways } => {
                        if let Some(g) = gateways {
                            if g.len() > 0 {
                                self.phase = Phase::Detaching(
                                    LeaseInfo { ip: *yiaddr, gateway: g[0] },
                                );
                            }
                        }
                    },
                    DhcpOutcome::ClientError => self.phase = Phase::FailDetaching,
                    DhcpOutcome::ClientEnded => self.phase = end,
                    _ => {},
                }
            },
            Phase::Detaching(info) => self.phase = Phase::Attaching(info),
            Phase::Attaching(info) => {
                self.phase = if failed {
                    Phase::Dropping
                } else {
                    Phase::Recording(info)
                };
            },
            Phase::Recording(info) => {
                self.phase = if self.neigh {
                    Phase::Replacing(info)
                } else {
                    Phase::Neighbouring(info)
                };
            },
            Phase::Replacing(info) => {
                self.phase = Phase::Neighbouring(info);
                self.neigh = false;
            },
            Phase::Neighbouring(_) => {
                self.phase = Phase::Waiting;
                self.neigh = true;
            },
            Phase::Dropping => self.phase = Phase::Waiting,
            Phase::FailDetaching => self.phase = Phase::FailDropping,
            Phase::FailDropping => self.phase = end,
            Phase::EndNeigh => {
                self.phase = Phase::EndDetaching;
                self.neigh = false;
            },
            Phase::EndDetaching => self.phase = Phase::EndDropping,
            Phase::EndDropping => self.phase = Phase::Pausing,
            Phase::Pausing => self.phase = Phase::Starting,
        }
    }
}

/// What exists for an interface: the address that the packet programs answer
/// for, the recorded lease, and the lease whose gateway entry is kept.
#[verifier::ext_equal]
pub struct World {
    pub attached: Option<Ipv4Addr>,
    pub recorded: Option<LeaseInfo>,
    pub neigh: Option<LeaseInfo>,
}

/// What an action does. The programs count as off after a removal, whether or
/// not it failed.
pub open spec fn effect(w: World, action: DhcpAction, outcome: DhcpOutcome) -> World {
    match action {
        DhcpAction::RemoveInterface => World { attached: None, ..w },
        DhcpAction::AddInterface(ip) => if outcome is Failed {
            w
        } else {
            World { attached: Some(ip), ..w }
        },
        DhcpAction::RecordLease(info) => World { recorded: Some(info), ..w },
        DhcpAction::ForgetLease => World { recorded: None, ..w },
        DhcpAction::AbortNeigh => World { neigh: None, ..w },
        DhcpAction::StartNeigh(info) => World { neigh: Some(info), ..w },
        _ => w,
    }
}

/// What exists in each phase.
pub open spec fn consistent(run: DhcpRun, w: World) -> bool {
    &&& run.neigh == (w.neigh is Some)
    &&& match run.phase {
        Phase::Starting | Phase::Pausing => w.attached is None && w.recorded is None
            && w.neigh is None,
        Phase::Waiting => match w.recorded {
            Some(info) => w.attached == Some(info.ip) && w.neigh == Some(info),
            None => w.attached is None,
        },
        Phase::Detaching(_) => true,
        Phase::Attaching(_) => w.attached is None,
        Phase::Recording(info) => w.attached == Some(info.ip),
        Phase::Replacing(info) => w.attached == Some(info.ip) && w.recorded == Some(info),
        Phase::Neighbouring(info) => w.attached == Some(info.ip) && w.recorded == Some(info)
            && w.neigh is None,
        Phase::Dropping => w.attached is None,
        Phase::FailDetaching => true,
        Phase::FailDropping => w.attached is None,
        Phase::EndNeigh => true,
        Phase::EndDetaching => w.neigh is None,
        Phase::EndDropping => w.attached is None && w.neigh is None,
    }
}

/// While an interface waits for its client, a recorded lease is one whose
/// address the programs answer for and whose gateway entry is kept; without a
/// client nothing is recorded, attached or kept. Every step keeps to this.
pub proof fn law_recorded_leases_are_answered_for(run: DhcpRun, w: World, outcome: DhcpOutcome)
    requires
        consistent(run, w),
    ensures
        consistent(
            DhcpRun { phase: Phase::Starting, neigh: false },
            World { attached: None, recorded: None, neigh: None },
        ),
        consistent(run.after(outcome), effect(w, run.action(), outcome)),
{
}

/// A lease with a gateway is taken up, whatever ran before: the programs come
/// off and go on again for the leased address, the lease is recorded with the
/// first gateway that it names, a neighbour entry kept so far is let go, that
/// of the new gateway is kept, and the interface waits on.
pub proof fn law_leases_are_taken_up(yiaddr: Ipv4Addr, gateways: Vec<Ipv4Addr>, neigh: bool)
    requires
        gateways@.len() > 0,
    ensures
        ({
            let info = LeaseInfo { ip: yiaddr, gateway: gateways@[0] };
            let waiting = DhcpRun { phase: Phase::Waiting, neigh };
            let detach = waiting.after(DhcpOutcome::Lease { yiaddr, gateways: Some(gateways) });
            let attach = detach.after(DhcpOutcome::Done);
            let record = attach.after(DhcpOutcome::Done);
            let next = record.after(DhcpOutcome::Done);
            let keep = if neigh {
                next.after(DhcpOutcome::Done)
            } else {
                next
            };
            &&& waiting.action() == DhcpAction::AwaitEvent
            &&& detach.action() == DhcpAction::RemoveInterface
            &&& detach.after(DhcpOutcome::Failed) == attach
            &&& attach.action() == DhcpAction::AddInterface(yiaddr)
            &&& record.action() == DhcpAction::RecordLease(info)
            &&& neigh ==> next.action() == DhcpAction::AbortNeigh
            &&& keep.action() == DhcpAction::StartNeigh(info)
            &&& keep.after(DhcpOutcome::Done) == (DhcpRun { phase: Phase::Waiting, neigh: true })
        }),
{
}

/// Where the programs cannot be attached for a new lease, the recorded lease
/// is forgotten and the interface waits on.
pub proof fn law_leases_that_cannot_be_attached_are_forgotten(
    yiaddr: Ipv4Addr,
    gateways: Vec<Ipv4Addr>,
    neigh: bool,
)
    requires
        gateways@.len() > 0,
    ensures
        ({
            let waiting = DhcpRun { phase: Phase::Waiting, neigh };
            let detach = waiting.after(DhcpOutcome::Lease { yiaddr, gateways: Some(gateways) });
            let drop = detach.after(DhcpOutcome::Done).after(DhcpOutcome::Failed);
            &&& drop.action() == DhcpAction::ForgetLease
            &&& drop.after(DhcpOutcome::Done) == waiting
        }),
{
}

/// A lease that names no gateway changes nothing.
pub proof fn law_leases_without_gateway_are_passed_over(
    yiaddr: Ipv4Addr,
    gateways: Option<Vec<Ipv4Addr>>,
    neigh: bool,
)
    requires
        gateways is None || gateways.unwrap()@.len() == 0,
    ensures
        ({
            let waiting = DhcpRun { phase: Phase::Waiting, neigh };
            waiting.after(DhcpOutcome::Lease { yiaddr, gateways }) == waiting
        }),
{
}

/// When a client has ended, the neighbour entry is let go if one is kept, the
/// programs come off, the lease is forgotten, and after five seconds the
/// client is started again. When it failed, the programs come off and the
/// lease is forgotten first of all. A client that cannot be started is
/// started again after five seconds as well.
pub proof fn law_clients_are_started_again(neigh: bool)
    ensures
        ({
            let waiting = DhcpRun { phase: Phase::Waiting, neigh };
            let ended = waiting.after(DhcpOutcome::ClientEnded);
            let failed = waiting.after(DhcpOutcome::ClientError);
            let forget = failed.after(DhcpOutcome::Done);
            let off = if neigh {
                ended.after(DhcpOutcome::Done)
            } else {
                ended
            };
            let drop = off.after(DhcpOutcome::Done);
            let pause = drop.after(DhcpOutcome::Done);
            let start = pause.after(DhcpOutcome::Done);
            &&& failed.action() == DhcpAction::RemoveInterface
            &&& forget.action() == DhcpAction::ForgetLease
            &&& forget.after(DhcpOutcome::Done) == ended
            &&& neigh ==> ended.action() == DhcpAction::AbortNeigh
            &&& off.action() == DhcpAction::RemoveInterface
            &&& off.after(DhcpOutcome::Failed) == drop
            &&& drop.action() == DhcpAction::ForgetLease
            &&& pause.action() == DhcpAction::Sleep(5)
            &&& start.action() == DhcpAction::StartClient
            &&& !start.neigh
            &&& start.after(DhcpOutcome::Failed) == pause
            &&& start.after(DhcpOutcome::Done) == (DhcpRun {
                phase: Phase::Waiting,
                neigh: false,
            })
        }),
{
}

} // verus!
