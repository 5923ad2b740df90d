//! Resource guard layer: budget accounting, spawn depth, exclusive tool bits,
//! and the permits and guards that hand resources back.
//!
//! The state is an ordinary value; every operation that changes it takes it
//! by `&mut`, and handing a guard or permit back is an explicit call.
use vstd::prelude::*;
use crate::text::{decimal, decimal_u64, str_eq};

verus! {

pub type TaskId = [u8; 16];

pub type AgentId = [u8; 16];

/// Why a spawn request was turned down.
#[derive(Debug, Clone)]
pub enum SpawnRejection {
    SystemOverloaded,
    BudgetExhausted { requested: u64, remaining: i64 },
    DepthExceeded { current: u32, max: u32 },
    ResourceConflict { tool_id: u64, holder: AgentId },
    L2Rejected { reason: String, category: String },
    L2Collapsed,
}

/// The decimal form of a signed 64-bit number.
pub open spec fn signed_decimal64(n: i64) -> Seq<char> {
    if n < 0 {
        "-"@ + decimal((-(n as int)) as nat)
    } else {
        decimal(n as nat)
    }
}

fn signed_decimal64_string(n: i64) -> (s: String)
    ensures
        s@ == signed_decimal64(n),
{
    if n < 0 {
        let m: u64 = if n == i64::MIN {
            9223372036854775808u64
        } else {
            (-n) as u64
        };
        let mut s = String::from_str("-");
        s.append(decimal_u64(m).as_str());
        s
    } else {
        decimal_u64(n as u64)
    }
}

impl SpawnRejection {
    /// The rejection as it is reported.
    pub fn message(&self) -> (s: String)
        ensures
            s@ == match *self {
                SpawnRejection::SystemOverloaded => "system overloaded"@,
                SpawnRejection::BudgetExhausted { requested, remaining } => "budget exhausted: requested "@ + decimal(
                    requested as nat,
                ) + ", remaining "@ + signed_decimal64(remaining),
                SpawnRejection::DepthExceeded { current, max } => "depth exceeded: current "@ + decimal(current as nat)
                    + ", max "@ + decimal(max as nat),
                SpawnRejection::ResourceConflict { tool_id, .. } => "resource conflict on tool "@ + decimal(tool_id as nat),
                SpawnRejection::L2Rejected { reason, category } => "L2 rejected ("@ + category@ + "): "@ + reason@,
                SpawnRejection::L2Collapsed => "L2 collapsed"@,
            },
    {
        match self {
            SpawnRejection::SystemOverloaded => String::from_str("system overloaded"),
            SpawnRejection::BudgetExhausted { requested, remaining } => {
                let mut s = String::from_str("budget exhausted: requested ");
                s.append(decimal_u64(*requested).as_str());
                s.append(", remaining ");
                s.append(signed_decimal64_string(*remaining).as_str());
                s
            },
            SpawnRejection::DepthExceeded { current, max } => {
                let mut s = String::from_str("depth exceeded: current ");
                s.append(decimal_u64(*current as u64).as_str());
                s.append(", max ");
                s.append(decimal_u64(*max as u64).as_str());
                s
            },
            SpawnRejection::ResourceConflict { tool_id, .. } => {
                let mut s = String::from_str("resource conflict on tool ");
                s.append(decimal_u64(*tool_id).as_str());
                s
            },
            SpawnRejection::L2Rejected { reason, category } => {
                let mut s = String::from_str("L2 rejected (");
                s.append(category.as_str());
                s.append("): ");
                s.append(reason.as_str());
                s
            },
            SpawnRejection::L2Collapsed => String::from_str("L2 collapsed"),
        }
    }
}

/// Shared resource accounting for one task tree.
#[derive(Debug, Clone, Copy)]
pub struct TaskResourceState {
    pub current_depth: u32,
    pub remaining_budget: i64,
    pub total_spawned: u32,
    pub max_dynamic_depth: u32,
    pub tool_bitmap: u64,
}

/// `bits` with every bit of `tools` cleared.
pub open spec fn clear_bits(bits: u64, tools: u64) -> u64 {
    bits & !tools
}

/// The remaining budget after `amount` is handed back.
pub open spec fn refunded(remaining: i64, amount: u64) -> i64 {
    remaining.wrapping_add_unsigned(amount)
}

/// Depth after one level is given back (the counter wraps below zero).
pub open spec fn depth_after_decrement(depth: u32) -> u32 {
    if depth == 0 {
        u32::MAX
    } else {
        (depth - 1) as u32
    }
}


/// The amount the budget counter deducts for a request of `requested`: the
/// request read as a signed 64-bit number, as the counter's cast reads it
/// (a request above `i64::MAX` counts as negative).
pub open spec fn signed_amount(requested: u64) -> int {
    if requested <= i64::MAX {
        requested as int
    } else {
        requested - 0x1_0000_0000_0000_0000
    }
}

/// Whether the remaining budget covers a request.
pub open spec fn covers(remaining: i64, requested: u64) -> bool {
    remaining >= signed_amount(requested)
}

/// Whether deducting a covered request would take the counter past its
/// top; only a request read as negative can.
pub open spec fn deduct_overflows(remaining: i64, requested: u64) -> bool {
    covers(remaining, requested) && remaining - signed_amount(requested) > i64::MAX
}

/// The remaining budget once a covered request is deducted.
pub open spec fn deducted(remaining: i64, requested: u64) -> i64 {
    (remaining - signed_amount(requested)) as i64
}

/// The state after a permit for `budget` and `tools` is granted.
pub open spec fn permit_acquired(s: TaskResourceState, budget: u64, tools: u64) -> TaskResourceState {
    TaskResourceState {
        current_depth: (s.current_depth + 1) as u32,
        remaining_budget: deducted(s.remaining_budget, budget),
        tool_bitmap: s.tool_bitmap | tools,
        ..s
    }
}

/// The state after a permit for `budget` and `tools` is handed back.
pub open spec fn permit_released(s: TaskResourceState, budget: u64, tools: u64) -> TaskResourceState {
    TaskResourceState {
        current_depth: depth_after_decrement(s.current_depth),
        remaining_budget: refunded(s.remaining_budget, budget),
        tool_bitmap: if tools != 0 {
            clear_bits(s.tool_bitmap, tools)
        } else {
            s.tool_bitmap
        },
        ..s
    }
}

/// Whether a permit for `budget` and `tools` would be granted in state `s`.
pub open spec fn permit_grantable(s: TaskResourceState, budget: u64, tools: u64) -> bool {
    &&& s.current_depth < s.max_dynamic_depth
    &&& covers(s.remaining_budget, budget)
    &&& !deduct_overflows(s.remaining_budget, budget)
    &&& !(tools != 0 && s.tool_bitmap & tools != 0)
}

/// Handing back an amount just taken from the budget restores it.
pub proof fn lemma_budget_release_restores(remaining: i64, amount: u64)
    requires
        covers(remaining, amount),
        !deduct_overflows(remaining, amount),
    ensures
        refunded(deducted(remaining, amount), amount) == remaining,
{
}

/// Clearing tool bits that were just taken (and were free) restores the bitmap.
pub proof fn lemma_tools_release_restores(bits: u64, tools: u64)
    requires
        bits & tools == 0,
    ensures
        clear_bits(bits | tools, tools) == bits,
{
    assert((bits & tools) == 0u64 ==> ((bits | tools) & !tools) == bits) by (bit_vector);
}

/// Tool bits are exclusive: once `held` is taken, any request that shares a
/// bit with it conflicts.
pub proof fn lemma_tools_exclusive(bits: u64, held: u64, requested: u64)
    requires
        held & requested != 0,
    ensures
        (bits | held) & requested != 0,
{
    assert((held & requested) != 0u64 ==> ((bits | held) & requested) != 0u64) by (bit_vector);
}

/// Depth never passes the maximum: from a state within the limit, a granted
/// increment stays within it.
pub proof fn lemma_depth_stays_bounded(depth: u32, max: u32)
    requires
        depth <= max,
    ensures
        depth < max ==> depth + 1 <= max,
{
}

/// A granted permit that is handed back leaves the state exactly as it was.
pub proof fn lemma_permit_round_trip(s: TaskResourceState, budget: u64, tools: u64)
    requires
        permit_grantable(s, budget, tools),
    ensures
        permit_released(permit_acquired(s, budget, tools), budget, tools) == s,
{
    lemma_budget_release_restores(s.remaining_budget, budget);
    if tools != 0 {
        lemma_tools_release_restores(s.tool_bitmap, tools);
    } else {
        let b = s.tool_bitmap;
        assert(b | 0u64 == b) by (bit_vector);
    }
}

/// A guard settled on `actual` out of `amount` leaves the budget exactly
/// `actual` below where it stood before the guard was taken.
pub proof fn lemma_settle_charges_actual(remaining: i64, amount: u64, actual: u64)
    requires
        remaining >= amount,
        actual < amount,
    ensures
        refunded((remaining - amount) as i64, (amount - actual) as u64) == remaining - actual,
{
}

impl TaskResourceState {
    pub fn new(initial_budget: u64, max_depth: u32) -> (s: Self)
        ensures
            s.current_depth == 0,
            s.remaining_budget == initial_budget as i64,
            s.total_spawned == 0,
            s.max_dynamic_depth == max_depth,
            s.tool_bitmap == 0,
    {
        TaskResourceState {
            current_depth: 0,
            remaining_budget: initial_budget as i64,
            total_spawned: 0,
            max_dynamic_depth: max_depth,
            tool_bitmap: 0,
        }
    }

    /// Deduct `requested` from the remaining budget when enough is left.
    /// A request above `i64::MAX` is read as negative, as the counter's cast
    /// reads it; deducting one from a budget near the top would overflow.
    pub fn try_acquire_budget(&mut self, requested: u64) -> (r: Option<u64>)
        requires
            !deduct_overflows(old(self).remaining_budget, requested),
        ensures
            covers(old(self).remaining_budget, requested) ==> r == Some(requested)
                && final(self).remaining_budget == deducted(old(self).remaining_budget, requested),
            !covers(old(self).remaining_budget, requested) ==> r is None && final(self).remaining_budget
                == old(self).remaining_budget,
            final(self).current_depth == old(self).current_depth,
            final(self).total_spawned == old(self).total_spawned,
            final(self).max_dynamic_depth == old(self).max_dynamic_depth,
            final(self).tool_bitmap == old(self).tool_bitmap,
    {
        let req: i64 = if requested <= 0x7fff_ffff_ffff_ffff {
            requested as i64
        } else {
            let t: i64 = (requested - 0x8000_0000_0000_0000) as i64;
            t + i64::MIN
        };
        if self.remaining_budget < req {
            return None;
        }
        self.remaining_budget = self.remaining_budget - req;
        Some(requested)
    }

    /// Take the tool bits in `tools` when none of them is held.
    pub fn try_acquire_tools(&mut self, tools: u64) -> (r: Result<(), u64>)
        ensures
            old(self).tool_bitmap & tools == 0 ==> r is Ok && final(self).tool_bitmap == (
            old(self).tool_bitmap | tools),
            old(self).tool_bitmap & tools != 0 ==> r == Err::<(), u64>(old(self).tool_bitmap)
                && final(self).tool_bitmap == old(self).tool_bitmap,
            final(self).current_depth == old(self).current_depth,
            final(self).remaining_budget == old(self).remaining_budget,
            final(self).total_spawned == old(self).total_spawned,
            final(self).max_dynamic_depth == old(self).max_dynamic_depth,
    {
        let current = self.tool_bitmap;
        if current & tools != 0 {
            return Err(current);
        }
        self.tool_bitmap = current | tools;
        Ok(())
    }

    /// Hand `amount` back to the budget (the counter wraps like an atomic add).
    pub fn release_budget(&mut self, amount: u64)
        ensures
            final(self).remaining_budget == refunded(old(self).remaining_budget, amount),
            final(self).current_depth == old(self).current_depth,
            final(self).total_spawned == old(self).total_spawned,
            final(self).max_dynamic_depth == old(self).max_dynamic_depth,
            final(self).tool_bitmap == old(self).tool_bitmap,
    {
        self.remaining_budget = self.remaining_budget.wrapping_add_unsigned(amount);
    }

    /// Clear the bits of `tools`.
    pub fn release_tools(&mut self, tools: u64)
        ensures
            final(self).tool_bitmap == clear_bits(old(self).tool_bitmap, tools),
            final(self).current_depth == old(self).current_depth,
            final(self).remaining_budget == old(self).remaining_budget,
            final(self).total_spawned == old(self).total_spawned,
            final(self).max_dynamic_depth == old(self).max_dynamic_depth,
    {
        self.tool_bitmap = self.tool_bitmap & !tools;
    }

    /// Go one level deeper unless the maximum depth is reached.
    /// `Ok` carries the new depth, `Err` the depth that was refused.
    pub fn increment_depth(&mut self) -> (r: Result<u32, u32>)
        ensures
            old(self).current_depth < old(self).max_dynamic_depth ==> r == Ok::<u32, u32>(
                (old(self).current_depth + 1) as u32)
                && final(self).current_depth == old(self).current_depth + 1,
            old(self).current_depth >= old(self).max_dynamic_depth ==> r == Err::<u32, u32>(
                old(self).current_depth) && final(self).current_depth == old(self).current_depth,
            final(self).remaining_budget == old(self).remaining_budget,
            final(self).total_spawned == old(self).total_spawned,
            final(self).max_dynamic_depth == old(self).max_dynamic_depth,
            final(self).tool_bitmap == old(self).tool_bitmap,
    {
        let current = self.current_depth;
        if current >= self.max_dynamic_depth {
            Err(current)
        } else {
            self.current_depth = current + 1;
            Ok(current + 1)
        }
    }

    /// Give one level of depth back (wraps below zero like an atomic subtract).
    pub fn decrement_depth(&mut self)
        ensures
            final(self).current_depth == depth_after_decrement(old(self).current_depth),
            final(self).remaining_budget == old(self).remaining_budget,
            final(self).total_spawned == old(self).total_spawned,
            final(self).max_dynamic_depth == old(self).max_dynamic_depth,
            final(self).tool_bitmap == old(self).tool_bitmap,
    {
        if self.current_depth == 0 {
            self.current_depth = u32::MAX;
        } else {
            self.current_depth = self.current_depth - 1;
        }
    }

    /// Count one more spawned agent and return the new total.
    pub fn increment_spawned(&mut self) -> (n: u32)
        requires
            old(self).total_spawned < u32::MAX,
        ensures
            n == old(self).total_spawned + 1,
            final(self).total_spawned == n,
            final(self).current_depth == old(self).current_depth,
            final(self).remaining_budget == old(self).remaining_budget,
            final(self).max_dynamic_depth == old(self).max_dynamic_depth,
            final(self).tool_bitmap == old(self).tool_bitmap,
    {
        self.total_spawned = self.total_spawned + 1;
        self.total_spawned
    }

    pub fn budget_remaining(&self) -> (b: i64)
        ensures
            b == self.remaining_budget,
    {
        self.remaining_budget
    }

    pub fn current_depth_value(&self) -> (d: u32)
        ensures
            d == self.current_depth,
    {
        self.current_depth
    }

    pub fn max_depth(&self) -> (d: u32)
        ensures
            d == self.max_dynamic_depth,
    {
        self.max_dynamic_depth
    }
}

/// Budget (and tool bits) held on behalf of one task.
///
/// Unless it is committed or settled, `release` hands everything back.
#[derive(Debug, Clone)]
pub struct BudgetGuard {
    root_task_id: TaskId,
    amount: u64,
    committed: bool,
    requested_tools: u64,
}

impl BudgetGuard {
    pub closed spec fn spec_task_id(&self) -> TaskId {
        self.root_task_id
    }

    pub closed spec fn spec_amount(&self) -> u64 {
        self.amount
    }

    pub closed spec fn spec_committed(&self) -> bool {
        self.committed
    }

    pub closed spec fn spec_tools(&self) -> u64 {
        self.requested_tools
    }

    /// Acquire `requested` budget and the tool bits `tools` from `state`,
    /// both or neither: `None` when the budget does not cover the request
    /// or one of the bits is held already, and then nothing changes.
    pub fn new(root_task_id: TaskId, requested: u64, state: &mut TaskResourceState, tools: u64) -> (g:
        Option<Self>)
        requires
            !deduct_overflows(old(state).remaining_budget, requested),
        ensures
            !covers(old(state).remaining_budget, requested) ==> g is None && *final(state) == *old(state),
            tools != 0 && old(state).tool_bitmap & tools != 0 ==> g is None && *final(state) == *old(state),
            covers(old(state).remaining_budget, requested) && !(tools != 0 && old(state).tool_bitmap & tools != 0)
                ==> {
                &&& g is Some
                &&& g->0.spec_task_id() == root_task_id
                &&& g->0.spec_amount() == requested
                &&& !g->0.spec_committed()
                &&& g->0.spec_tools() == tools
                &&& *final(state) == (TaskResourceState {
                    remaining_budget: deducted(old(state).remaining_budget, requested),
                    tool_bitmap: old(state).tool_bitmap | tools,
                    ..*old(state)
                })
            },
    {
        let amount = match state.try_acquire_budget(requested) {
            Some(a) => a,
            None => return None,
        };
        if tools != 0 {
            if state.try_acquire_tools(tools).is_err() {
                state.release_budget(amount);
                proof {
                    lemma_budget_release_restores(old(state).remaining_budget, requested);
                }
                return None;
            }
        } else {
            proof {
                let b = state.tool_bitmap;
                assert(b | 0u64 == b) by (bit_vector);
            }
        }
        Some(BudgetGuard { root_task_id, amount, committed: false, requested_tools: tools })
    }

    /// Settle on the final amount: what was held beyond `actual` goes back.
    /// A guard that is already settled or committed is left as it is.
    pub fn settle(&mut self, actual: u64, state: &mut TaskResourceState)
        ensures
            final(self).spec_committed(),
            final(self).spec_amount() == old(self).spec_amount(),
            final(self).spec_task_id() == old(self).spec_task_id(),
            final(self).spec_tools() == old(self).spec_tools(),
            !old(self).spec_committed() && actual < old(self).spec_amount() ==> *final(state)
                == (TaskResourceState {
                remaining_budget: refunded(
                    old(state).remaining_budget,
                    (old(self).spec_amount() - actual) as u64,
                ),
                ..*old(state)
            }),
            old(self).spec_committed() || actual >= old(self).spec_amount() ==> *final(state)
                == *old(state),
    {
        if self.committed {
            return;
        }
        self.committed = true;
        if actual < self.amount {
            state.release_budget(self.amount - actual);
        }
    }

    /// Mark the guard as settled: `release` will hand nothing back.
    pub fn commit(&mut self)
        ensures
            final(self).spec_committed(),
            final(self).spec_amount() == old(self).spec_amount(),
            final(self).spec_task_id() == old(self).spec_task_id(),
            final(self).spec_tools() == old(self).spec_tools(),
    {
        self.committed = true;
    }

    pub fn amount(&self) -> (a: u64)
        ensures
            a == self.spec_amount(),
    {
        self.amount
    }

    pub fn task_id(&self) -> (t: &TaskId)
        ensures
            *t == self.spec_task_id(),
    {
        &self.root_task_id
    }

    /// A guard over resources that were already acquired (nothing is taken).
    pub fn from_permit(task_id: TaskId, amount: u64, tools: u64) -> (g: Self)
        ensures
            g.spec_task_id() == task_id,
            g.spec_amount() == amount,
            !g.spec_committed(),
            g.spec_tools() == tools,
    {
        BudgetGuard { root_task_id: task_id, amount, committed: false, requested_tools: tools }
    }

    /// End of the guard's life: an uncommitted guard hands its budget and
    /// tool bits back.
    pub fn release(self, state: &mut TaskResourceState)
        ensures
            self.spec_committed() ==> *final(state) == *old(state),
            !self.spec_committed() ==> *final(state) == (TaskResourceState {
                remaining_budget: refunded(old(state).remaining_budget, self.spec_amount()),
                tool_bitmap: if self.spec_tools() != 0 {
                    clear_bits(old(state).tool_bitmap, self.spec_tools())
                } else {
                    old(state).tool_bitmap
                },
                ..*old(state)
            }),
    {
        if !self.committed {
            state.release_budget(self.amount);
            if self.requested_tools != 0 {
                state.release_tools(self.requested_tools);
            }
        }
    }
}

/// Resources granted for one spawn: one level of depth, a budget amount and
/// the requested tool bits.
#[derive(Debug)]
pub struct L0Permit {
    budget_amount: u64,
    requested_tools: u64,
}

impl L0Permit {
    pub closed spec fn spec_budget(&self) -> u64 {
        self.budget_amount
    }

    pub closed spec fn spec_tools(&self) -> u64 {
        self.requested_tools
    }

    pub fn budget_amount(&self) -> (a: u64)
        ensures
            a == self.spec_budget(),
    {
        self.budget_amount
    }

    /// Turn the permit into a guard that holds the same budget and tools.
    pub fn into_budget_guard(self, task_id: TaskId) -> (g: Option<BudgetGuard>)
        ensures
            g is Some,
            g->0.spec_task_id() == task_id,
            g->0.spec_amount() == self.spec_budget(),
            g->0.spec_tools() == self.spec_tools(),
            !g->0.spec_committed(),
    {
        Some(BudgetGuard::from_permit(task_id, self.budget_amount, self.requested_tools))
    }
}

/// Checks depth, budget and tool conflicts for a spawn, all or nothing.
pub struct L0CircuitBreaker {
    resource_state: TaskResourceState,
}

impl L0CircuitBreaker {
    pub closed spec fn spec_state(&self) -> TaskResourceState {
        self.resource_state
    }

    pub fn new(resource_state: TaskResourceState) -> (b: Self)
        ensures
            b.spec_state() == resource_state,
    {
        L0CircuitBreaker { resource_state }
    }

    pub fn state(&self) -> (s: &TaskResourceState)
        ensures
            *s == self.spec_state(),
    {
        &self.resource_state
    }

    pub fn remaining_budget(&self) -> (b: i64)
        ensures
            b == self.spec_state().remaining_budget,
    {
        self.resource_state.remaining_budget
    }

    /// Acquire one level of depth, `requested_budget` and `requested_tools`.
    /// On any refusal the state is left exactly as it was.
    pub fn try_acquire(&mut self, requested_budget: u64, current_depth: u32, requested_tools: u64) -> (r:
        Result<L0Permit, SpawnRejection>)
        requires
            old(self).spec_state().current_depth < old(self).spec_state().max_dynamic_depth ==> !deduct_overflows(
                old(self).spec_state().remaining_budget,
                requested_budget,
            ),
        ensures
            ({
                let s = old(self).spec_state();
                if s.current_depth >= s.max_dynamic_depth {
                    &&& r matches Err(SpawnRejection::DepthExceeded { current, max })
                    &&& current == current_depth && max == s.max_dynamic_depth
                    &&& final(self).spec_state() == s
                } else if !covers(s.remaining_budget, requested_budget) {
                    &&& r matches Err(SpawnRejection::BudgetExhausted { requested, remaining })
                    &&& requested == requested_budget && remaining == s.remaining_budget
                    &&& final(self).spec_state() == s
                } else if requested_tools != 0 && s.tool_bitmap & requested_tools != 0 {
                    &&& r matches Err(SpawnRejection::ResourceConflict { tool_id, holder })
                    &&& tool_id == requested_tools && holder@ == Seq::new(16, |i: int| 0u8)
                    &&& final(self).spec_state() == s
                } else {
                    &&& r is Ok
                    &&& r->Ok_0.spec_budget() == requested_budget
                    &&& r->Ok_0.spec_tools() == requested_tools
                    &&& final(self).spec_state() == permit_acquired(s, requested_budget, requested_tools)
                }
            }),
    {
        let depth = self.resource_state.increment_depth();
        if depth.is_err() {
            return Err(
                SpawnRejection::DepthExceeded {
                    current: current_depth,
                    max: self.resource_state.max_depth(),
                },
            );
        }
        let budget = match self.resource_state.try_acquire_budget(requested_budget) {
            Some(b) => b,
            None => {
                self.resource_state.decrement_depth();
                let remaining = self.resource_state.budget_remaining();
                return Err(
                    SpawnRejection::BudgetExhausted { requested: requested_budget, remaining },
                );
            },
        };
        if requested_tools != 0 && self.resource_state.try_acquire_tools(requested_tools).is_err() {
            self.resource_state.release_budget(budget);
            self.resource_state.decrement_depth();
            return Err(
                SpawnRejection::ResourceConflict { tool_id: requested_tools, holder: [0u8; 16] },
            );
        }
        proof {
            assert(requested_tools == 0 ==> self.resource_state.tool_bitmap
                == old(self).resource_state.tool_bitmap | requested_tools) by {
                let b = old(self).resource_state.tool_bitmap;
                assert(b | 0u64 == b) by (bit_vector);
            }
        }
        Ok(L0Permit { budget_amount: budget, requested_tools })
    }

    /// Hand a permit's resources back: budget, tool bits and the depth level.
    pub fn release(&mut self, permit: L0Permit)
        ensures
            final(self).spec_state() == permit_released(
                old(self).spec_state(),
                permit.spec_budget(),
                permit.spec_tools(),
            ),
    {
        self.resource_state.release_budget(permit.budget_amount);
        if permit.requested_tools != 0 {
            self.resource_state.release_tools(permit.requested_tools);
        }
        self.resource_state.decrement_depth();
    }
}

/// The tools that own a bit of the tool bitmap, in bit order.
pub open spec fn tool_names() -> Seq<Seq<char>> {
    seq![
        "read_file"@, "write_file"@, "sh"@, "read_memo"@, "write_memo"@, "delete_memo"@, "list_memos"@,
        "call_agent"@, "list_agents"@, "send_message"@, "read_messages"@, "search_asset"@, "diff_edit"@,
    ]
}

/// The position of a tool among `tool_names()`, where it is one.
pub open spec fn tool_position(name: Seq<char>) -> Option<int> {
    if exists|i: int| 0 <= i < tool_names().len() && tool_names()[i] == name {
        Some(choose|i: int| 0 <= i < tool_names().len() && tool_names()[i] == name)
    } else {
        None
    }
}

fn tool_name_list() -> (v: Vec<&'static str>)
    ensures
        v@.len() == tool_names().len(),
        forall|i: int| 0 <= i < v@.len() ==> v@[i]@ == #[trigger] tool_names()[i],
{
    let v = vec![
        "read_file", "write_file", "sh", "read_memo", "write_memo", "delete_memo", "list_memos",
        "call_agent", "list_agents", "send_message", "read_messages", "search_asset", "diff_edit",
    ];
    assert forall|i: int| 0 <= i < v@.len() implies v@[i]@ == #[trigger] tool_names()[i] by {
        assert(v@[i] == v@[i]);
    }
    v
}

/// The bit of the tool bitmap that a tool owns: bit `i` for the tool at
/// position `i` of `tool_names()`, no bit for any other name.
pub fn tool_bit(name: &str) -> (b: u64)
    ensures
        match tool_position(name@) {
            Some(i) => b == 1u64 << (i as u64),
            None => b == 0,
        },
{
    let list = tool_name_list();
    let mut i: usize = 0;
    while i < list.len()
        invariant
            i <= list@.len(),
            list@.len() == tool_names().len(),
            forall|k: int| 0 <= k < list@.len() ==> list@[k]@ == #[trigger] tool_names()[k],
            forall|k: int| 0 <= k < i ==> tool_names()[k] != name@,
        decreases list@.len() - i,
    {
        if str_eq(list[i], name) {
            proof {
                assert(tool_names()[i as int] == name@);
                let j = choose|j: int| 0 <= j < tool_names().len() && tool_names()[j] == name@;
                assert(tool_position(name@) == Some(j));
                assert(tool_names()[j] == name@);
                lemma_tool_names_distinct(i as int, j);
            }
            return 1u64 << (i as u64);
        }
        i += 1;
    }
    0
}

proof fn lemma_tool_names_distinct(i: int, j: int)
    requires
        0 <= i < tool_names().len(),
        0 <= j < tool_names().len(),
        tool_names()[i] == tool_names()[j],
    ensures
        i == j,
{
    reveal_strlit("read_file");
    reveal_strlit("write_file");
    reveal_strlit("sh");
    reveal_strlit("read_memo");
    reveal_strlit("write_memo");
    reveal_strlit("delete_memo");
    reveal_strlit("list_memos");
    reveal_strlit("call_agent");
    reveal_strlit("list_agents");
    reveal_strlit("send_message");
    reveal_strlit("read_messages");
    reveal_strlit("search_asset");
    reveal_strlit("diff_edit");
    let n = tool_names();
    assert(n[i].len() == n[j].len());
    assert(n[i][0] == n[j][0]);
    assert(n[i][n[i].len() - 1] == n[j][n[j].len() - 1]);
}

} // verus!
