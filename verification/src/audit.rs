//! Rule-based arbitration between agents that contend for the same work,
//! with a failure counter that collapses the auditor after repeated
//! high-risk conflicts and lets it recover over time.
//!
//! The caller supplies what is measured in floating point (whether the
//! priorities diverge, which agent has the top priority) and the clock.
use vstd::prelude::*;
use crate::guard::{AgentId, SpawnRejection};

verus! {

/// Seconds without a failure after which the failure counter drops by one.
pub const COLLAPSE_RECOVERY_SECS: u64 = 300;

/// The outcome of an arbitration.
#[derive(Debug, Clone)]
pub enum ArbitrationResult {
    /// Every listed agent is stopped.
    Prune(Vec<AgentId>),
    /// One agent goes on; the others are stopped.
    Override { winner: AgentId, slash_targets: Vec<AgentId> },
}

/// What an audit decided and why. `override_patch_from` is the index of the
/// contending agent whose context embedding becomes the override patch.
#[derive(Debug, Clone)]
pub struct L2RuleAuditResult {
    pub decision: ArbitrationResult,
    pub risk_statement: String,
    pub lesson_learned: String,
    pub override_patch_from: Option<usize>,
}

/// The rule-based auditor.
pub struct L2RuleAuditEngine {
    max_consecutive_failures: u32,
    consecutive_failures: u32,
    last_failure_at: u64,
}

/// `a - b`, or 0 below zero.
pub open spec fn sat_sub(a: int, b: int) -> int {
    if a >= b {
        a - b
    } else {
        0
    }
}

/// The failure counter and last-failure time after time-based recovery at
/// `now`.
pub open spec fn decayed(failures: u32, last: u64, now: u64) -> (u32, u64) {
    if failures == 0 {
        (failures, last)
    } else if sat_sub(now as int, last as int) >= COLLAPSE_RECOVERY_SECS {
        ((failures - 1) as u32, now)
    } else {
        (failures, last)
    }
}

/// `agents` without the one at `w`, in order.
pub open spec fn without_index(agents: Seq<AgentId>, w: int) -> Seq<AgentId> {
    agents.subrange(0, w) + agents.subrange(w + 1, agents.len() as int)
}

/// The first position of `a` in `agents`.
pub open spec fn first_position(agents: Seq<AgentId>, a: AgentId, p: int) -> bool {
    0 <= p < agents.len() && agents[p] == a && forall|k: int| 0 <= k < p ==> agents[k] != a
}

/// Do two agent ids hold the same bytes?
pub(crate) fn same_agent(a: &AgentId, b: &AgentId) -> (r: bool)
    ensures
        r == (*a == *b),
{
    let mut i: usize = 0;
    while i < 16
        invariant
            i <= 16,
            forall|k: int| 0 <= k < i ==> a@[k] == b@[k],
        decreases 16 - i,
    {
        if a[i] != b[i] {
            return false;
        }
        i += 1;
    }
    proof {
        assert(a@ =~= b@);
        vstd::array::axiom_array_ext_equal(*a, *b);
    }
    true
}

/// A copy of a list of agent ids.
pub(crate) fn copy_agents(agents: &[AgentId]) -> (r: Vec<AgentId>)
    ensures
        r@ == agents@,
{
    let mut r: Vec<AgentId> = Vec::new();
    let mut i: usize = 0;
    while i < agents.len()
        invariant
            i <= agents@.len(),
            r@ == agents@.subrange(0, i as int),
        decreases agents@.len() - i,
    {
        r.push(agents[i]);
        assert(agents@.subrange(0, i + 1) =~= agents@.subrange(0, i as int).push(agents@[i as int]));
        i += 1;
    }
    assert(agents@.subrange(0, agents@.len() as int) =~= agents@);
    r
}

impl L2RuleAuditEngine {
    pub closed spec fn max_failures(&self) -> u32 {
        self.max_consecutive_failures
    }

    pub closed spec fn failures(&self) -> u32 {
        self.consecutive_failures
    }

    pub closed spec fn last_failure(&self) -> u64 {
        self.last_failure_at
    }

    /// The counter never runs more than ten past the maximum.
    pub closed spec fn well_formed(&self) -> bool {
        self.consecutive_failures <= self.max_consecutive_failures + 10
    }

    pub fn max_consecutive_failures(&self) -> (m: u32)
        ensures
            m == self.max_failures(),
    {
        self.max_consecutive_failures
    }

    /// The auditor collapses when the counter reaches the maximum.
    pub open spec fn collapsed_at(&self, now: u64) -> bool {
        decayed(self.failures(), self.last_failure(), now).0 >= self.max_failures()
    }

    pub fn new(max_consecutive_failures: u32) -> (e: Self)
        ensures
            e.well_formed(),
            e.max_failures() == max_consecutive_failures,
            e.failures() == 0,
            e.last_failure() == 0,
    {
        L2RuleAuditEngine { max_consecutive_failures, consecutive_failures: 0, last_failure_at: 0 }
    }

    /// Time-based recovery: a failure is forgiven once
    /// `COLLAPSE_RECOVERY_SECS` have passed since the last one.
    fn decay_failures(&mut self, now: u64)
        requires
            old(self).well_formed(),
        ensures
            final(self).well_formed(),
            final(self).max_failures() == old(self).max_failures(),
            (final(self).failures(), final(self).last_failure()) == decayed(
                old(self).failures(),
                old(self).last_failure(),
                now,
            ),
    {
        if self.consecutive_failures == 0 {
            return;
        }
        let elapsed = if now >= self.last_failure_at {
            now - self.last_failure_at
        } else {
            0
        };
        if elapsed >= COLLAPSE_RECOVERY_SECS {
            self.consecutive_failures = self.consecutive_failures - 1;
            self.last_failure_at = now;
        }
    }

    /// Arbitrate between `agents` at time `now`. `risk_is_high` says that
    /// the priorities diverge to the extreme; `winner_idx` is the agent with
    /// the top priority.
    pub fn audit(&mut self, agents: &[AgentId], risk_is_high: bool, winner_idx: usize, now: u64) -> (r: L2RuleAuditResult)
        requires
            old(self).well_formed(),
            old(self).collapsed_at(now) ==> old(self).max_failures() + 11 <= u32::MAX,
            !old(self).collapsed_at(now) && agents@.len() > 0 && !risk_is_high ==> winner_idx < agents@.len(),
        ensures
            final(self).well_formed(),
            final(self).max_failures() == old(self).max_failures(),
            ({
                let (f, l) = decayed(old(self).failures(), old(self).last_failure(), now);
                let max = old(self).max_failures();
                if f >= max {
                    &&& final(self).failures() == if f + 1 <= max + 10 {
                        (f + 1) as u32
                    } else {
                        (max + 10) as u32
                    }
                    &&& final(self).last_failure() == now
                    &&& r.decision matches ArbitrationResult::Prune(v) && v@ == agents@
                    &&& r.risk_statement@ == "L2 collapsed due to consecutive failures"@
                    &&& r.lesson_learned@ == "System needs stabilization"@
                    &&& r.override_patch_from is None
                } else if agents@.len() == 0 {
                    &&& final(self).failures() == f
                    &&& final(self).last_failure() == l
                    &&& r.decision matches ArbitrationResult::Prune(v) && v@.len() == 0
                    &&& r.risk_statement@ == "No contending agents"@
                    &&& r.lesson_learned@.len() == 0
                    &&& r.override_patch_from is None
                } else if risk_is_high {
                    &&& final(self).failures() == f + 1
                    &&& final(self).last_failure() == now
                    &&& r.decision matches ArbitrationResult::Prune(v) && v@ == agents@
                    &&& r.risk_statement@ == "High risk: extreme priority divergence"@
                    &&& r.lesson_learned@ == "Resolved via L2 audit"@
                    &&& r.override_patch_from == Some(0usize)
                } else {
                    &&& final(self).failures() == 0
                    &&& final(self).last_failure() == l
                    &&& r.decision matches ArbitrationResult::Override { winner, slash_targets } && winner
                        == agents@[winner_idx as int] && slash_targets@ == without_index(agents@, winner_idx as int)
                    &&& r.risk_statement@ == "Moderate risk"@
                    &&& r.lesson_learned@ == "Resolved via L2 audit"@
                    &&& r.override_patch_from matches Some(p) && first_position(agents@, agents@[winner_idx as int], p as int)
                }
            }),
    {
        self.decay_failures(now);
        if self.consecutive_failures >= self.max_consecutive_failures {
            let bumped = self.consecutive_failures + 1;
            let cap = self.max_consecutive_failures + 10;
            self.consecutive_failures = if bumped <= cap {
                bumped
            } else {
                cap
            };
            self.last_failure_at = now;
            return L2RuleAuditResult {
                decision: ArbitrationResult::Prune(copy_agents(agents)),
                risk_statement: String::from_str("L2 collapsed due to consecutive failures"),
                lesson_learned: String::from_str("System needs stabilization"),
                override_patch_from: None,
            };
        }
        if agents.len() == 0 {
            return L2RuleAuditResult {
                decision: ArbitrationResult::Prune(Vec::new()),
                risk_statement: String::from_str("No contending agents"),
                lesson_learned: String::new(),
                override_patch_from: None,
            };
        }
        if risk_is_high {
            self.consecutive_failures = self.consecutive_failures + 1;
            self.last_failure_at = now;
            return L2RuleAuditResult {
                decision: ArbitrationResult::Prune(copy_agents(agents)),
                risk_statement: String::from_str("High risk: extreme priority divergence"),
                lesson_learned: String::from_str("Resolved via L2 audit"),
                override_patch_from: Some(0),
            };
        }
        self.consecutive_failures = 0;
        let winner = agents[winner_idx];
        let mut losers: Vec<AgentId> = Vec::new();
        let mut i: usize = 0;
        while i < agents.len()
            invariant
                i <= agents@.len(),
                winner_idx < agents@.len(),
                losers@ == if i <= winner_idx {
                    agents@.subrange(0, i as int)
                } else {
                    agents@.subrange(0, winner_idx as int) + agents@.subrange(winner_idx + 1, i as int)
                },
            decreases agents@.len() - i,
        {
            if i != winner_idx {
                losers.push(agents[i]);
            }
            proof {
                if i < winner_idx {
                    assert(agents@.subrange(0, i + 1) =~= agents@.subrange(0, i as int).push(agents@[i as int]));
                } else if i == winner_idx {
                    assert(agents@.subrange(0, winner_idx as int) + agents@.subrange(winner_idx + 1, i + 1)
                        =~= agents@.subrange(0, i as int));
                } else {
                    assert(agents@.subrange(winner_idx + 1, i + 1) =~= agents@.subrange(winner_idx + 1, i as int).push(
                        agents@[i as int],
                    ));
                }
            }
            i += 1;
        }
        let mut pos: usize = 0;
        while pos < agents.len() && !same_agent(&agents[pos], &winner)
            invariant
                pos <= winner_idx,
                winner_idx < agents@.len(),
                winner == agents@[winner_idx as int],
                forall|k: int| 0 <= k < pos ==> agents@[k] != winner,
            decreases agents@.len() - pos,
        {
            pos += 1;
        }
        L2RuleAuditResult {
            decision: ArbitrationResult::Override { winner, slash_targets: losers },
            risk_statement: String::from_str("Moderate risk"),
            lesson_learned: String::from_str("Resolved via L2 audit"),
            override_patch_from: Some(pos),
        }
    }

    /// Screen a spawn request at depth `current_depth` against the safety
    /// limit `max_depth`: a collapsed auditor refuses everything, and a
    /// request that is too deep is refused and counted as a failure.
    pub fn screen_request(&mut self, current_depth: u32, max_depth: u32, now: u64) -> (r: Option<SpawnRejection>)
        requires
            old(self).well_formed(),
        ensures
            final(self).well_formed(),
            final(self).max_failures() == old(self).max_failures(),
            ({
                let (f, l) = decayed(old(self).failures(), old(self).last_failure(), now);
                if f >= old(self).max_failures() {
                    &&& r matches Some(SpawnRejection::L2Collapsed)
                    &&& final(self).failures() == f
                    &&& final(self).last_failure() == l
                } else if current_depth > max_depth {
                    &&& r matches Some(SpawnRejection::L2Rejected { reason, category }) && reason@
                        == "Depth exceeds L2 safety limit"@ && category@ == "depth"@
                    &&& final(self).failures() == f + 1
                    &&& final(self).last_failure() == l
                } else {
                    &&& r is None
                    &&& final(self).failures() == f
                    &&& final(self).last_failure() == l
                }
            }),
    {
        self.decay_failures(now);
        if self.consecutive_failures >= self.max_consecutive_failures {
            return Some(SpawnRejection::L2Collapsed);
        }
        if current_depth > max_depth {
            self.consecutive_failures = self.consecutive_failures + 1;
            return Some(
                SpawnRejection::L2Rejected {
                    reason: String::from_str("Depth exceeds L2 safety limit"),
                    category: String::from_str("depth"),
                },
            );
        }
        None
    }

    /// Forget every failure.
    pub fn reset_failures(&mut self)
        ensures
            final(self).well_formed(),
            final(self).max_failures() == old(self).max_failures(),
            final(self).failures() == 0,
            final(self).last_failure() == 0,
    {
        self.consecutive_failures = 0;
        self.last_failure_at = 0;
    }
}

/// The auditor is collapsed after `max` high-risk audits in a row within
/// the recovery window, and `reset_failures` always lifts the collapse of an
/// auditor whose limit is above zero.
pub proof fn lemma_reset_lifts_collapse(e: L2RuleAuditEngine, now: u64)
    requires
        e.failures() == 0,
        e.max_failures() > 0,
    ensures
        !e.collapsed_at(now),
{
}

} // verus!
