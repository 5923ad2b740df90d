//! Arbitration by a judge model: the prompt it is asked, the decision text
//! taken out of its answer, and what an audit does before and after the
//! model is asked. Asking the model, parsing its JSON and anything measured
//! in floating point are the caller's part.
use vstd::prelude::*;
use crate::audit::{copy_agents, without_index, ArbitrationResult};
use crate::guard::AgentId;
use crate::text::{chars_of, chars_range, decimal, decimal_string, find_sub, first_occ, is_substring, last_occ,
    lemma_first_occ, lemma_last_occ, occurs_at, rfind_sub, str_eq, string_of};

verus! {

/// The kinds of conflict between agents.
#[derive(Debug, Clone, Copy)]
pub enum ConflictType {
    ResourceLockContention,
    ActionContradiction,
    ValueDivergence,
}

/// The judge's answer once parsed.
#[derive(Debug, Clone)]
pub struct JudgeDecision {
    pub decision: String,
    pub winner_index: Option<usize>,
    pub risk_level: String,
    pub risk_statement: String,
    pub lesson_learned: String,
}

/// What an audit by the judge decided. `override_patch_from` is the index
/// of the contending agent whose context embedding becomes the override
/// patch (a zero embedding where there is none at that index).
#[derive(Debug, Clone)]
pub struct L2LlmAuditResult {
    pub decision: ArbitrationResult,
    pub risk_statement: String,
    pub lesson_learned: String,
    pub override_patch_from: Option<usize>,
    pub tokens_used: u32,
}

pub open spec fn conflict_label(t: ConflictType) -> Seq<char> {
    match t {
        ConflictType::ResourceLockContention => "resource lock contention"@,
        ConflictType::ActionContradiction => "action contradiction"@,
        ConflictType::ValueDivergence => "value divergence"@,
    }
}

fn conflict_label_str(t: ConflictType) -> (s: &'static str)
    ensures
        s@ == conflict_label(t),
{
    match t {
        ConflictType::ResourceLockContention => "resource lock contention",
        ConflictType::ActionContradiction => "action contradiction",
        ConflictType::ValueDivergence => "value divergence",
    }
}

/// `Agent #0, Agent #1, ...` for `n` agents.
pub open spec fn agent_labels(n: nat) -> Seq<char>
    decreases n,
{
    if n == 0 {
        Seq::empty()
    } else if n == 1 {
        "Agent #0"@
    } else {
        agent_labels((n - 1) as nat) + ", Agent #"@ + decimal((n - 1) as nat)
    }
}

/// The prompt that asks the judge to arbitrate a conflict of `t` between
/// `n` agents whose priority scores read `scores`.
pub open spec fn judge_prompt(t: ConflictType, n: nat, scores: Seq<char>) -> Seq<char> {
    let last = if n > 0 {
        (n - 1) as nat
    } else {
        0nat
    };
    "Analyze this multi-agent conflict:\n\nConflict Type: "@ + conflict_label(t) + "\nContending Agents (indexed 0.."@
        + decimal(last) + "): "@ + agent_labels(n) + "\nPriority Scores: "@ + scores + prompt_tail()
}

/// The fixed end of the judge prompt: the context and the answer format.
pub open spec fn prompt_tail() -> Seq<char> {
    "\n\nContext:\n- Agent embeddings show semantic divergence\n- This conflict was escalated from L1 arbitration\n\nRespond with JSON only. winner_index MUST be the 0-based index into the Contending Agents list.\n{\n  \"decision\": \"override|merge|prune\",\n  \"winner_index\": <0-based index, or null if none>,\n  \"risk_level\": \"low|medium|high\",\n  \"risk_statement\": \"brief risk assessment\",\n  \"lesson_learned\": \"what to remember for future\"\n}"@
}

fn prompt_tail_str() -> (s: &'static str)
    ensures
        s@ == prompt_tail(),
{
    "\n\nContext:\n- Agent embeddings show semantic divergence\n- This conflict was escalated from L1 arbitration\n\nRespond with JSON only. winner_index MUST be the 0-based index into the Contending Agents list.\n{\n  \"decision\": \"override|merge|prune\",\n  \"winner_index\": <0-based index, or null if none>,\n  \"risk_level\": \"low|medium|high\",\n  \"risk_statement\": \"brief risk assessment\",\n  \"lesson_learned\": \"what to remember for future\"\n}"
}

/// The prompt for a conflict of `conflict_type` between `agent_count`
/// agents; `scores` is how their priority scores are written.
pub fn build_judge_prompt(conflict_type: ConflictType, agent_count: usize, scores: &str) -> (r: String)
    ensures
        r@ == judge_prompt(conflict_type, agent_count as nat, scores@),
{
    let mut labels = String::new();
    let mut i: usize = 0;
    while i < agent_count
        invariant
            i <= agent_count,
            labels@ == agent_labels(i as nat),
        decreases agent_count - i,
    {
        if i > 0 {
            labels.append(", ");
        }
        labels.append("Agent #");
        labels.append(decimal_string(i).as_str());
        proof {
            reveal_strlit("Agent #");
            reveal_strlit(", ");
            reveal_strlit(", Agent #");
            if i == 0 {
                assert(decimal(0) == "0"@) by {
                    reveal_strlit("0");
                }
                assert(labels@ =~= "Agent #0"@) by {
                    reveal_strlit("Agent #0");
                }
            } else {
                assert(labels@ =~= agent_labels(i as nat) + ", Agent #"@ + decimal(i as nat));
            }
        }
        i += 1;
    }
    let last: usize = if agent_count > 0 {
        agent_count - 1
    } else {
        0
    };
    let mut r = String::from_str("Analyze this multi-agent conflict:\n\nConflict Type: ");
    r.append(conflict_label_str(conflict_type));
    r.append("\nContending Agents (indexed 0..");
    r.append(decimal_string(last).as_str());
    r.append("): ");
    r.append(labels.as_str());
    r.append("\nPriority Scores: ");
    r.append(scores);
    r.append(prompt_tail_str());
    r
}

/// `s` with every occurrence of `pat`, left to right, replaced by `rep`.
#[verifier::opaque]
pub open spec fn replace_all(s: Seq<char>, pat: Seq<char>, rep: Seq<char>) -> Seq<char>
    decreases s.len(),
{
    match first_occ(s, pat) {
        Some(i) => if pat.len() > 0 && 0 <= i && i + pat.len() <= s.len() {
            s.subrange(0, i) + rep + replace_all(s.subrange(i + pat.len(), s.len() as int), pat, rep)
        } else {
            s
        },
        None => s,
    }
}

proof fn lemma_replace_at(s: Seq<char>, pat: Seq<char>, rep: Seq<char>, i: int)
    requires
        pat.len() > 0,
        first_occ(s, pat) == Some(i),
        0 <= i && i + pat.len() <= s.len(),
    ensures
        replace_all(s, pat, rep) == s.subrange(0, i) + rep + replace_all(
            s.subrange(i + pat.len(), s.len() as int),
            pat,
            rep,
        ),
{
    reveal(replace_all);
}

proof fn lemma_replace_none(s: Seq<char>, pat: Seq<char>, rep: Seq<char>)
    requires
        first_occ(s, pat) is None,
    ensures
        replace_all(s, pat, rep) == s,
{
    reveal(replace_all);
}

fn append_chars(r: &mut Vec<char>, xs: &[char])
    ensures
        final(r)@ == old(r)@ + xs@,
{
    let ghost head = r@;
    let mut k: usize = 0;
    while k < xs.len()
        invariant
            k <= xs@.len(),
            r@ == head + xs@.subrange(0, k as int),
        decreases xs@.len() - k,
    {
        r.push(xs[k]);
        assert(xs@.subrange(0, k + 1) =~= xs@.subrange(0, k as int).push(xs@[k as int]));
        k += 1;
    }
    assert(xs@.subrange(0, xs@.len() as int) =~= xs@);
}

fn replace_all_chars(s: &[char], pat: &[char], rep: &[char]) -> (r: Vec<char>)
    requires
        pat@.len() > 0,
    ensures
        r@ == replace_all(s@, pat@, rep@),
    decreases s@.len(),
{
    let n = s.len();
    match find_sub(s, pat) {
        None => {
            proof {
                assert(first_occ(s@, pat@) is None);
                lemma_replace_none(s@, pat@, rep@);
            }
            let r = chars_range(s, 0, n);
            assert(s@.subrange(0, n as int) =~= s@);
            r
        },
        Some(i) => {
            proof {
                lemma_first_occ(s@, pat@, i as int);
                lemma_replace_at(s@, pat@, rep@, i as int);
            }
            assert(i + pat@.len() <= n);
            let mut r = chars_range(s, 0, i);
            let tail = chars_range(s, i + pat.len(), n);
            let rest = replace_all_chars(tail.as_slice(), pat, rep);
            append_chars(&mut r, rep);
            append_chars(&mut r, rest.as_slice());
            r
        },
    }
}

/// Where the decision JSON starts in the judge's answer: at the first
/// `{`, or at the start.
pub open spec fn json_start(c: Seq<char>) -> int {
    match first_occ(c, seq!['{']) {
        Some(i) => i,
        None => 0,
    }
}

/// Where it ends: after the last `}`, or at the end.
pub open spec fn json_end(c: Seq<char>) -> int {
    match last_occ(c, seq!['}']) {
        Some(i) => i + 1,
        None => c.len() as int,
    }
}

/// The span of the decision JSON is not reversed.
pub open spec fn json_span_ok(c: Seq<char>) -> bool {
    json_start(c) <= json_end(c)
}

/// The decision JSON of an answer, with a winner index of -1 written as
/// null.
pub open spec fn judge_json_text(c: Seq<char>) -> Seq<char> {
    replace_all(c.subrange(json_start(c), json_end(c)), "\"winner_index\": -1"@, "\"winner_index\": null"@)
}

/// The decision JSON out of the judge's answer, ready to parse.
pub fn judge_json(content: &str) -> (r: String)
    requires
        json_span_ok(content@),
    ensures
        r@ == judge_json_text(content@),
{
    let cs = chars_of(content);
    let n = cs.len();
    let open = vec!['{'];
    let close = vec!['}'];
    assert(open@ =~= seq!['{']);
    assert(close@ =~= seq!['}']);
    let start = match find_sub(cs.as_slice(), open.as_slice()) {
        Some(i) => {
            proof {
                lemma_first_occ(cs@, open@, i as int);
            }
            i
        },
        None => 0,
    };
    let end = match rfind_sub(cs.as_slice(), close.as_slice()) {
        Some(i) => {
            proof {
                lemma_last_occ(cs@, close@, i as int);
            }
            assert(i + 1 <= n);
            i + 1
        },
        None => cs.len(),
    };
    let span = chars_range(cs.as_slice(), start, end);
    let pat = chars_of("\"winner_index\": -1");
    let rep = chars_of("\"winner_index\": null");
    proof {
        reveal_strlit("\"winner_index\": -1");
    }
    let r = replace_all_chars(span.as_slice(), pat.as_slice(), rep.as_slice());
    string_of(r.as_slice())
}

/// A decision the audit can act on: an override that names its winner, a
/// prune or a merge.
pub open spec fn decision_accepted(d: JudgeDecision) -> bool {
    (d.decision@ == "override"@ && d.winner_index is Some) || d.decision@ == "prune"@ || d.decision@ == "merge"@
}

/// The decision the audit acts on: the judge's when it can act on it, else
/// a prune at high risk.
pub fn checked_decision(d: JudgeDecision) -> (r: JudgeDecision)
    ensures
        decision_accepted(d) ==> r == d,
        !decision_accepted(d) ==> {
            &&& r.decision@ == "prune"@
            &&& r.winner_index is None
            &&& r.risk_level@ == "high"@
            &&& r.risk_statement@ == "Unable to determine winner, pruning for safety"@
            &&& r.lesson_learned@ == "LLM output was ambiguous"@
        },
{
    let accepted = (str_eq(d.decision.as_str(), "override") && d.winner_index.is_some()) || str_eq(
        d.decision.as_str(),
        "prune",
    ) || str_eq(d.decision.as_str(), "merge");
    if accepted {
        d
    } else {
        JudgeDecision {
            decision: String::from_str("prune"),
            winner_index: None,
            risk_level: String::from_str("high"),
            risk_statement: String::from_str("Unable to determine winner, pruning for safety"),
            lesson_learned: String::from_str("LLM output was ambiguous"),
        }
    }
}

/// What an audit reports when the judge could not be asked or its answer
/// not read: every agent is pruned.
pub fn failed_audit(agents: &[AgentId], error: &str) -> (r: L2LlmAuditResult)
    ensures
        r.decision matches ArbitrationResult::Prune(v) && v@ == agents@,
        r.risk_statement@ == "LLM audit error: "@ + error@,
        r.lesson_learned@ == "LLM audit failed, pruning for safety"@,
        r.override_patch_from is None,
        r.tokens_used == 0,
{
    let mut s = String::from_str("LLM audit error: ");
    s.append(error);
    L2LlmAuditResult {
        decision: ArbitrationResult::Prune(copy_agents(agents)),
        risk_statement: s,
        lesson_learned: String::from_str("LLM audit failed, pruning for safety"),
        override_patch_from: None,
        tokens_used: 0,
    }
}

/// The judge-model auditor's failure counter; the model, its settings and
/// the conflict's embeddings are held by the caller.
pub struct L2LlmAuditEngine {
    max_consecutive_failures: u32,
    consecutive_failures: u32,
}

/// The index of the winner the judge named, where it names one among the
/// agents; else the first.
pub open spec fn winner_of(judge: JudgeDecision, n: nat) -> int {
    match judge.winner_index {
        Some(i) => if i < n {
            i as int
        } else {
            0
        },
        None => 0,
    }
}

impl L2LlmAuditEngine {
    pub closed spec fn max_failures(&self) -> u32 {
        self.max_consecutive_failures
    }

    pub closed spec fn failures(&self) -> u32 {
        self.consecutive_failures
    }

    /// The counter never runs more than ten past the maximum.
    pub open spec fn well_formed(&self) -> bool {
        self.failures() <= self.max_failures() + 10
    }

    pub fn new(max_consecutive_failures: u32) -> (e: Self)
        ensures
            e.well_formed(),
            e.max_failures() == max_consecutive_failures,
            e.failures() == 0,
    {
        L2LlmAuditEngine { max_consecutive_failures, consecutive_failures: 0 }
    }

    pub fn consecutive_failures(&self) -> (n: u32)
        ensures
            n == self.failures(),
    {
        self.consecutive_failures
    }

    /// Before the judge is asked: a collapsed auditor (its counter at the
    /// maximum) counts one more failure, never more than ten past the
    /// maximum, and prunes every agent without asking; otherwise nothing
    /// changes and the judge is to be asked.
    pub fn begin_audit(&mut self, agents: &[AgentId]) -> (r: Option<L2LlmAuditResult>)
        requires
            old(self).well_formed(),
            old(self).failures() >= old(self).max_failures() ==> old(self).max_failures() + 11 <= u32::MAX,
        ensures
            final(self).well_formed(),
            final(self).max_failures() == old(self).max_failures(),
            old(self).failures() < old(self).max_failures() ==> r is None && final(self).failures()
                == old(self).failures(),
            old(self).failures() >= old(self).max_failures() ==> {
                &&& final(self).failures() == collapse_step(old(self).max_failures(), old(self).failures())
                &&& r matches Some(res) && res.decision matches ArbitrationResult::Prune(v) && v@ == agents@
                    && res.risk_statement@ == "L2 collapsed due to consecutive failures"@
                    && res.lesson_learned@ == "System needs stabilization"@ && res.override_patch_from is None
                    && res.tokens_used == 0
            },
    {
        if self.consecutive_failures < self.max_consecutive_failures {
            return None;
        }
        let bumped = self.consecutive_failures + 1;
        let cap = self.max_consecutive_failures + 10;
        self.consecutive_failures = if bumped <= cap {
            bumped
        } else {
            cap
        };
        Some(
            L2LlmAuditResult {
                decision: ArbitrationResult::Prune(copy_agents(agents)),
                risk_statement: String::from_str("L2 collapsed due to consecutive failures"),
                lesson_learned: String::from_str("System needs stabilization"),
                override_patch_from: None,
                tokens_used: 0,
            },
        )
    }

    /// After the judge answered (`judge`, its checked decision, for
    /// `tokens_used` tokens): with no agents nothing is decided; else a
    /// high risk counts a failure and any other level clears the counter,
    /// an override lets the named winner (or the first agent) go on and
    /// stops the others, and any other decision prunes every agent.
    pub fn finish_audit(&mut self, agents: &[AgentId], judge: &JudgeDecision, tokens_used: u32) -> (r: L2LlmAuditResult)
        requires
            old(self).well_formed(),
            old(self).failures() < old(self).max_failures(),
        ensures
            final(self).well_formed(),
            final(self).max_failures() == old(self).max_failures(),
            r.tokens_used == tokens_used,
            agents@.len() == 0 ==> {
                &&& final(self).failures() == old(self).failures()
                &&& r.decision matches ArbitrationResult::Prune(v) && v@.len() == 0
                &&& r.risk_statement@ == "No contending agents in manifest"@
                &&& r.lesson_learned@.len() == 0
                &&& r.override_patch_from is None
            },
            agents@.len() > 0 ==> {
                let w = winner_of(*judge, agents@.len());
                &&& final(self).failures() == if judge.risk_level@ == "high"@ {
                    old(self).failures() + 1
                } else {
                    0
                }
                &&& if judge.decision@ == "override"@ {
                    r.decision matches ArbitrationResult::Override { winner, slash_targets } && winner == agents@[w]
                        && slash_targets@ == without_index(agents@, w)
                } else {
                    r.decision matches ArbitrationResult::Prune(v) && v@ == agents@
                }
                &&& r.risk_statement@ == judge.risk_statement@
                &&& r.lesson_learned@ == judge.lesson_learned@
                &&& r.override_patch_from == Some(w as usize)
            },
    {
        if agents.len() == 0 {
            return L2LlmAuditResult {
                decision: ArbitrationResult::Prune(Vec::new()),
                risk_statement: String::from_str("No contending agents in manifest"),
                lesson_learned: String::new(),
                override_patch_from: None,
                tokens_used,
            };
        }
        if str_eq(judge.risk_level.as_str(), "high") {
            self.consecutive_failures = self.consecutive_failures + 1;
        } else {
            self.consecutive_failures = 0;
        }
        let w: usize = match judge.winner_index {
            Some(i) => if i < agents.len() {
                i
            } else {
                0
            },
            None => 0,
        };
        let decision = if str_eq(judge.decision.as_str(), "override") {
            let winner = agents[w];
            let mut losers: Vec<AgentId> = Vec::new();
            let mut i: usize = 0;
            while i < agents.len()
                invariant
                    i <= agents@.len(),
                    w < agents@.len(),
                    losers@ == if i <= w {
                        agents@.subrange(0, i as int)
                    } else {
                        agents@.subrange(0, w as int) + agents@.subrange(w + 1, i as int)
                    },
                decreases agents@.len() - i,
            {
                if i != w {
                    losers.push(agents[i]);
                }
                proof {
                    if i < w {
                        assert(agents@.subrange(0, i + 1) =~= agents@.subrange(0, i as int).push(agents@[i as int]));
                    } else if i == w {
                        assert(agents@.subrange(0, w as int) + agents@.subrange(w + 1, i + 1) =~= agents@.subrange(
                            0,
                            i as int,
                        ));
                    } else {
                        assert(agents@.subrange(w + 1, i + 1) =~= agents@.subrange(w + 1, i as int).push(
                            agents@[i as int],
                        ));
                    }
                }
                i += 1;
            }
            ArbitrationResult::Override { winner, slash_targets: losers }
        } else {
            ArbitrationResult::Prune(copy_agents(agents))
        };
        L2LlmAuditResult {
            decision,
            risk_statement: String::from_str(judge.risk_statement.as_str()),
            lesson_learned: String::from_str(judge.lesson_learned.as_str()),
            override_patch_from: Some(w),
            tokens_used,
        }
    }

    /// Forget every failure.
    pub fn reset_failures(&mut self)
        ensures
            final(self).well_formed(),
            final(self).max_failures() == old(self).max_failures(),
            final(self).failures() == 0,
    {
        self.consecutive_failures = 0;
    }
}

/// The failure counter after one audit of a collapsed auditor: one more,
/// but never more than ten past the maximum.
pub open spec fn collapse_step(max: u32, failures: u32) -> u32 {
    if failures + 1 <= max + 10 {
        (failures + 1) as u32
    } else {
        (max + 10) as u32
    }
}

/// The failure counter after `n` audits of a collapsed auditor.
pub open spec fn collapse_steps(max: u32, failures: u32, n: nat) -> u32
    decreases n,
{
    if n == 0 {
        failures
    } else {
        collapse_step(max, collapse_steps(max, failures, (n - 1) as nat))
    }
}

/// A collapsed judge-model auditor stays collapsed: each audit counts one
/// more failure until the counter rests ten past the maximum.
pub proof fn lemma_collapse_saturates(max: u32, failures: u32, n: nat)
    requires
        max <= failures <= max + 10,
        max + 11 <= u32::MAX,
    ensures
        collapse_steps(max, failures, n) == if failures + n <= max + 10 {
            failures + n
        } else {
            max + 10
        },
        collapse_steps(max, failures, n) >= max,
    decreases n,
{
    if n > 0 {
        lemma_collapse_saturates(max, failures, (n - 1) as nat);
    }
}

} // verus!
