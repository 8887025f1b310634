//! A TLS handshake between two ends in one process: who writes, who reads, and
//! when it is over.
//!
//! A round lets the client write and the server read, then the server write and
//! the client read. The handshake is over when neither end is in it any more,
//! and given up after a fixed number of rounds.

use vstd::prelude::*;

verus! {

/// Rounds before a handshake is given up.
pub const ROUND_BUDGET: u32 = 50;

/// Name that server certificates are issued for.
pub const SUBJECT_SERVER: &'static str = "cosaci.local";

/// What to do next.
#[derive(Clone, Copy, Debug, PartialEq, Eq, Structural)]
pub enum Step {
    /// Ask whether the client wants to write.
    AskClient,
    /// Let the client write.
    FlushClient,
    /// Let the server read and process what the client wrote.
    FeedServer,
    /// Ask whether the server wants to write.
    AskServer,
    /// Let the server write.
    FlushServer,
    /// Let the client read and process what the server wrote.
    FeedClient,
    /// Ask whether the ends are still in the handshake.
    AskBoth,
    /// Both ends completed the handshake.
    Done,
    /// The handshake did not converge.
    GiveUp,
}

/// What came of a step.
#[derive(Clone, Copy, Debug, PartialEq, Eq, Structural)]
pub enum Report {
    /// Whether an end wants to write.
    Wants(bool),
    /// Whether anything was written.
    Wrote(bool),
    /// An end read and processed what there was.
    Read,
    /// Whether either end is still in the handshake.
    Handshaking {
        /// The client.
        client: bool,
        /// The server.
        server: bool,
    },
}

/// Where a handshake is.
#[derive(Clone, Copy, Debug, PartialEq, Eq, Structural)]
pub struct Pump {
    /// Rounds that are over.
    pub rounds: u32,
    /// Step that is due.
    pub due: Step,
}

/// Whether a report is what a step gives.
pub open spec fn answers(report: Report, due: Step) -> bool {
    match due {
        Step::AskClient | Step::AskServer => report is Wants,
        Step::FlushClient | Step::FlushServer => report is Wrote,
        Step::FeedServer | Step::FeedClient => report is Read,
        Step::AskBoth => report is Handshaking,
        Step::Done | Step::GiveUp => false,
    }
}

/// Where a handshake is after a step.
pub open spec fn advanced(p: Pump, report: Report) -> Pump {
    let due = match (p.due, report) {
        (Step::AskClient, Report::Wants(yes)) => if yes {
            Step::FlushClient
        } else {
            Step::AskServer
        },
        (Step::FlushClient, Report::Wrote(some)) => if some {
            Step::FeedServer
        } else {
            Step::AskServer
        },
        (Step::FeedServer, _) => Step::AskServer,
        (Step::AskServer, Report::Wants(yes)) => if yes {
            Step::FlushServer
        } else {
            Step::AskBoth
        },
        (Step::FlushServer, Report::Wrote(some)) => if some {
            Step::FeedClient
        } else {
            Step::AskBoth
        },
        (Step::FeedClient, _) => Step::AskBoth,
        (Step::AskBoth, Report::Handshaking { client, server }) => if !client && !server {
            Step::Done
        } else if p.rounds + 1 < ROUND_BUDGET {
            Step::AskClient
        } else {
            Step::GiveUp
        },
        _ => p.due,
    };
    Pump {
        rounds: if p.due == Step::AskBoth {
            (p.rounds + 1) as u32
        } else {
            p.rounds
        },
        due,
    }
}

impl Pump {
    /// Whether the rounds are within the budget: short of it while the handshake
    /// goes on, and used up when it is given up.
    pub open spec fn wf(&self) -> bool {
        match self.due {
            Step::Done => self.rounds <= ROUND_BUDGET,
            Step::GiveUp => self.rounds == ROUND_BUDGET,
            _ => self.rounds < ROUND_BUDGET,
        }
    }

    /// The start of a handshake.
    #[must_use]
    pub fn new() -> (r: Self)
        ensures
            r == (Pump { rounds: 0, due: Step::AskClient }),
            r.wf(),
    {
        Pump { rounds: 0, due: Step::AskClient }
    }

    /// Take what came of the step that was due.
    pub fn advance(&mut self, report: Report)
        requires
            old(self).wf(),
            answers(report, old(self).due),
        ensures
            *final(self) == advanced(*old(self), report),
            final(self).wf(),
    {
        match (self.due, report) {
            (Step::AskClient, Report::Wants(yes)) => {
                self.due = if yes {
                    Step::FlushClient
                } else {
                    Step::AskServer
                };
            },
            (Step::FlushClient, Report::Wrote(some)) => {
                self.due = if some {
                    Step::FeedServer
                } else {
                    Step::AskServer
                };
            },
            (Step::FeedServer, _) => {
                self.due = Step::AskServer;
            },
            (Step::AskServer, Report::Wants(yes)) => {
                self.due = if yes {
                    Step::FlushServer
                } else {
                    Step::AskBoth
                };
            },
            (Step::FlushServer, Report::Wrote(some)) => {
                self.due = if some {
                    Step::FeedClient
                } else {
                    Step::AskBoth
                };
            },
            (Step::FeedClient, _) => {
                self.due = Step::AskBoth;
            },
            (Step::AskBoth, Report::Handshaking { client, server }) => {
                self.rounds = self.rounds + 1;
                self.due = if !client && !server {
                    Step::Done
                } else if self.rounds < ROUND_BUDGET {
                    Step::AskClient
                } else {
                    Step::GiveUp
                };
            },
            _ => {},
        }
    }
}

/// How many steps a handshake can still take.
pub open spec fn steps_left(p: Pump) -> nat {
    let within = match p.due {
        Step::AskClient => 7nat,
        Step::FlushClient => 6,
        Step::FeedServer => 5,
        Step::AskServer => 4,
        Step::FlushServer => 3,
        Step::FeedClient => 2,
        Step::AskBoth => 1,
        Step::Done | Step::GiveUp => 0,
    };
    if p.due == Step::Done || p.due == Step::GiveUp {
        0
    } else {
        (7 * (ROUND_BUDGET - p.rounds - 1) + within) as nat
    }
}

/// A handshake ends: every step brings it nearer to its end, whatever the two
/// ends do.
pub proof fn law_handshake_ends(p: Pump, report: Report)
    requires
        p.wf(),
        answers(report, p.due),
    ensures
        steps_left(advanced(p, report)) < steps_left(p),
        steps_left(p) <= 350,
{
}

/// A handshake succeeds only when both ends completed it.
pub proof fn law_success_needs_both_ends(p: Pump, report: Report)
    requires
        p.wf(),
        answers(report, p.due),
        advanced(p, report).due == Step::Done,
    ensures
        report == (Report::Handshaking { client: false, server: false }),
{
}

/// What one end writes the other is fed, both ends have their turn in every round,
/// and the handshake is given up only when the rounds are used up.
pub proof fn law_every_round_serves_both_ends(p: Pump, report: Report)
    requires
        p.wf(),
        answers(report, p.due),
    ensures
        p.due == Step::AskClient ==> advanced(p, report).due == (if report == Report::Wants(true) {
            Step::FlushClient
        } else {
            Step::AskServer
        }),
        p.due == Step::FlushClient ==> advanced(p, report).due == (if report == Report::Wrote(
            true,
        ) {
            Step::FeedServer
        } else {
            Step::AskServer
        }),
        p.due == Step::FeedServer ==> advanced(p, report).due == Step::AskServer,
        p.due == Step::AskServer ==> advanced(p, report).due == (if report == Report::Wants(true) {
            Step::FlushServer
        } else {
            Step::AskBoth
        }),
        p.due == Step::FlushServer ==> advanced(p, report).due == (if report == Report::Wrote(
            true,
        ) {
            Step::FeedClient
        } else {
            Step::AskBoth
        }),
        p.due == Step::FeedClient ==> advanced(p, report).due == Step::AskBoth,
        report == (Report::Handshaking { client: false, server: false }) ==> advanced(
            p,
            report,
        ).due == Step::Done,
        advanced(p, report).due == Step::GiveUp ==> p.due == Step::AskBoth && p.rounds + 1
            == ROUND_BUDGET,
        advanced(p, report).rounds == p.rounds + (if p.due == Step::AskBoth {
            1int
        } else {
            0
        }),
{
}

} // verus!
