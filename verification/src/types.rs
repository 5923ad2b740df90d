//! Shared domain types: spawn bookkeeping, chat messages, the agent tree
//! and runtime events.
use vstd::prelude::*;
pub use crate::guard::{AgentId, TaskId};
use crate::guard::SpawnRejection;

verus! {

pub type TraceId = [u8; 16];

pub type SpanId = u64;

/// Where a piece of raw text lies in its source.
#[derive(Debug, Clone, Copy)]
pub struct RawTextRef {
    pub offset: u64,
    pub length: u32,
    pub source_hash: [u8; 32],
}

/// What a spawned child agent is given.
#[derive(Debug, Clone, Copy)]
pub struct ChildAgentConfig {
    pub agent_id: AgentId,
    pub task_id: TaskId,
    pub allocated_budget: u64,
    pub allowed_tools: u64,
    pub role_template_id: Option<u32>,
}

impl Default for ChildAgentConfig {
    /// Zero ids and budget, every tool allowed, no role template.
    fn default() -> (c: Self)
        ensures
            c.agent_id@ == Seq::new(16, |i: int| 0u8),
            c.task_id@ == Seq::new(16, |i: int| 0u8),
            c.allocated_budget == 0,
            c.allowed_tools == u64::MAX,
            c.role_template_id is None,
    {
        let c = ChildAgentConfig {
            agent_id: [0u8; 16],
            task_id: [0u8; 16],
            allocated_budget: 0,
            allowed_tools: u64::MAX,
            role_template_id: None,
        };
        assert(c.agent_id@ =~= Seq::new(16, |i: int| 0u8));
        assert(c.task_id@ =~= Seq::new(16, |i: int| 0u8));
        c
    }
}

/// The answer to a spawn request: the child's configuration, or why it
/// was turned down.
#[derive(Debug, Clone)]
pub enum SpawnDecision {
    Approved(ChildAgentConfig),
    Rejected(SpawnRejection),
}

/// The parent of an agent being spawned: its id and its depth.
#[derive(Debug, Clone, Copy)]
pub struct SpawnParent {
    pub id: AgentId,
    pub depth: u32,
}

/// How embeddings are made: on this machine, by the provider, or one
/// falling back to the other.
#[derive(Debug, Clone, Copy, PartialEq, Eq, Structural)]
pub enum EmbeddingStrategy {
    /// Only the local model.
    LocalOnly,
    /// Only the provider's embedding service.
    RemoteOnly,
    /// The provider first, the local model when it fails.
    LocalFallback,
    /// The provider where it offers embeddings, the local model otherwise.
    QualityFirst,
}

impl Default for EmbeddingStrategy {
    fn default() -> (s: Self)
        ensures
            s == EmbeddingStrategy::QualityFirst,
    {
        EmbeddingStrategy::QualityFirst
    }
}

/// One subtask of a decomposition.
#[derive(Debug, Clone)]
pub struct SubtaskDef {
    pub id: String,
    pub role: String,
    pub goal: String,
    pub depend_on: Vec<String>,
    pub auto_confirm: bool,
}

/// The arguments of the decomposition tool: why, and the subtasks.
#[derive(Debug, Clone)]
pub struct DecomposeTaskArgs {
    pub reasoning: String,
    pub subtasks: Vec<SubtaskDef>,
}

/// Status of a chat message in the stream.
#[derive(Debug, Clone, Copy, PartialEq, Eq, Structural)]
pub enum MessageStatus {
    Thinking,
    Streaming,
    Completed,
    Error,
}

/// Role of a chat message sender.
#[derive(Debug, Clone, Copy, PartialEq, Eq, Structural)]
pub enum MessageRole {
    System,
    User,
    Agent,
    Decision,
}

/// One chunk of streamed output, in token order.
#[derive(Debug, Clone)]
pub enum StreamChunk {
    Text(String),
    Reasoning(String),
    ToolCall { name: String, args: String },
}

/// One chat message.
#[derive(Debug, Clone)]
pub struct ChatMessage {
    pub role: MessageRole,
    pub content: String,
    pub reasoning: String,
    pub chunks: Vec<StreamChunk>,
    pub timestamp: String,
    pub status: MessageStatus,
}

impl ChatMessage {
    /// A completed system message stamped with `timestamp` (the caller
    /// reads the clock).
    pub fn system(content: String, timestamp: String) -> (m: Self)
        ensures
            m.role == MessageRole::System,
            m.content@ == content@,
            m.reasoning@.len() == 0,
            m.chunks@.len() == 0,
            m.timestamp@ == timestamp@,
            m.status == MessageStatus::Completed,
    {
        ChatMessage {
            role: MessageRole::System,
            content,
            reasoning: String::new(),
            chunks: Vec::new(),
            timestamp,
            status: MessageStatus::Completed,
        }
    }
}

impl Default for ChatMessage {
    fn default() -> (m: Self)
        ensures
            m.role == MessageRole::System,
            m.content@.len() == 0,
            m.reasoning@.len() == 0,
            m.chunks@.len() == 0,
            m.timestamp@.len() == 0,
            m.status == MessageStatus::Completed,
    {
        ChatMessage {
            role: MessageRole::System,
            content: String::new(),
            reasoning: String::new(),
            chunks: Vec::new(),
            timestamp: String::new(),
            status: MessageStatus::Completed,
        }
    }
}

/// A model chosen for chat.
#[derive(Debug, Clone)]
pub struct SelectedModel {
    pub provider_id: String,
    pub model_id: String,
    pub provider_name: String,
    pub model_name: String,
}

/// Status of an agent in the diagnostic tree.
#[derive(Debug, Clone, Copy, PartialEq, Eq, Structural)]
pub enum AgentStatus {
    Running,
    Suspended,
    Completed,
    Failed,
}

/// One entry of the agent diagnostic tree.
#[derive(Debug, Clone)]
pub struct AgentEntry {
    pub id: String,
    pub name: String,
    pub status: AgentStatus,
    pub budget: u64,
}

/// How a model exposes reasoning.
#[derive(Debug, Clone)]
pub enum ReasoningOption {
    Toggle,
    Effort { values: Vec<String> },
    BudgetTokens { values: Vec<String> },
    Unknown,
}

/// Events of the agent runtime, also forwarded to the user interface.
#[derive(Debug, Clone)]
pub enum RuntimeEvent {
    ActivateAgent { agent_id: AgentId, parent_id: Option<AgentId> },
    ChildCompleted { parent_id: AgentId, child_id: AgentId, result: String },
    ReadyForAggregation { agent_id: AgentId },
    AgentFailed { agent_id: AgentId, error: String },
    AggregationCompleted { agent_id: AgentId, result: String },
    InboxMessage { agent_id: AgentId, from_name: String, preview: String, unread_count: usize },
    TaskCompleted { task_id: TaskId, result: String },
    TaskFailed { task_id: TaskId, error: String },
    EscalateTask { task_id: TaskId, reason: String, target_role: Option<String>, from_agent: AgentId },
    MergeTaskResult { from_task: TaskId, into_task: TaskId, summary: Option<String> },
    DecomposeTask { parent_agent: AgentId, subtasks: Vec<SubtaskDef> },
}

pub open spec fn event_label(e: RuntimeEvent) -> Seq<char> {
    match e {
        RuntimeEvent::ActivateAgent { .. } => "activate-agent"@,
        RuntimeEvent::ChildCompleted { .. } => "child-completed"@,
        RuntimeEvent::ReadyForAggregation { .. } => "ready-for-aggregation"@,
        RuntimeEvent::AgentFailed { .. } => "agent-failed"@,
        RuntimeEvent::AggregationCompleted { .. } => "aggregation-completed"@,
        RuntimeEvent::InboxMessage { .. } => "inbox-message"@,
        RuntimeEvent::TaskCompleted { .. } => "task-completed"@,
        RuntimeEvent::TaskFailed { .. } => "task-failed"@,
        RuntimeEvent::EscalateTask { .. } => "escalate-task"@,
        RuntimeEvent::MergeTaskResult { .. } => "merge-task-result"@,
        RuntimeEvent::DecomposeTask { .. } => "decompose-task"@,
    }
}

impl RuntimeEvent {
    /// Label for logs and the user interface.
    pub fn label(&self) -> (s: &'static str)
        ensures
            s@ == event_label(*self),
    {
        match self {
            RuntimeEvent::ActivateAgent { .. } => "activate-agent",
            RuntimeEvent::ChildCompleted { .. } => "child-completed",
            RuntimeEvent::ReadyForAggregation { .. } => "ready-for-aggregation",
            RuntimeEvent::AgentFailed { .. } => "agent-failed",
            RuntimeEvent::AggregationCompleted { .. } => "aggregation-completed",
            RuntimeEvent::InboxMessage { .. } => "inbox-message",
            RuntimeEvent::TaskCompleted { .. } => "task-completed",
            RuntimeEvent::TaskFailed { .. } => "task-failed",
            RuntimeEvent::EscalateTask { .. } => "escalate-task",
            RuntimeEvent::MergeTaskResult { .. } => "merge-task-result",
            RuntimeEvent::DecomposeTask { .. } => "decompose-task",
        }
    }
}

/// Per-tool execution counters.
#[derive(Debug, Clone, Copy)]
pub struct ToolMetrics {
    pub call_count: u64,
    pub error_count: u64,
    pub total_duration_ms: u64,
}

impl Default for ToolMetrics {
    fn default() -> (m: Self)
        ensures
            m.call_count == 0 && m.error_count == 0 && m.total_duration_ms == 0,
    {
        ToolMetrics { call_count: 0, error_count: 0, total_duration_ms: 0 }
    }
}

/// Aggregate execution counters of an agent, per tool name.
#[derive(Debug, Clone)]
pub struct AgentMetrics {
    pub tools: Vec<(String, ToolMetrics)>,
    pub total_calls: u64,
    pub total_errors: u64,
    pub started_at: u64,
    pub completed_at: u64,
}

impl AgentMetrics {
    /// Seconds from start to completion, or 0 when completion is not after
    /// the start.
    pub fn duration_secs(&self) -> (d: u64)
        ensures
            d == if self.completed_at >= self.started_at {
                (self.completed_at - self.started_at) as u64
            } else {
                0u64
            },
    {
        if self.completed_at >= self.started_at {
            self.completed_at - self.started_at
        } else {
            0
        }
    }
}

/// The dependency shape of a task graph.
#[derive(Debug, Clone, Copy, PartialEq, Eq, Structural)]
pub enum DependencyShape {
    Chain,
    FanOut,
    FanIn,
    Dag,
    Atomic,
}

/// The shape of a graph of `node_count` tasks whose non-root tasks have
/// `deps[i]` dependencies each: a single task is atomic; no dependencies
/// fan out; a task with two or more fans in; otherwise a chain when every
/// task but one has a parent, else a general graph.
pub open spec fn shape_of(node_count: nat, deps: Seq<usize>) -> DependencyShape {
    if node_count <= 1 {
        DependencyShape::Atomic
    } else if forall|i: int| 0 <= i < deps.len() ==> deps[i] == 0 {
        DependencyShape::FanOut
    } else if exists|i: int| 0 <= i < deps.len() && deps[i] >= 2 {
        DependencyShape::FanIn
    } else if deps.len() == node_count - 1 {
        DependencyShape::Chain
    } else {
        DependencyShape::Dag
    }
}

impl DependencyShape {
    pub fn classify(node_count: usize, non_root_dependency_counts: &[usize]) -> (s: DependencyShape)
        ensures
            s == shape_of(node_count as nat, non_root_dependency_counts@),
    {
        let deps = non_root_dependency_counts;
        if node_count <= 1 {
            return DependencyShape::Atomic;
        }
        let mut all_zero = true;
        let mut any_two = false;
        let mut i: usize = 0;
        while i < deps.len()
            invariant
                i <= deps@.len(),
                all_zero == forall|k: int| 0 <= k < i ==> deps@[k] == 0,
                any_two == exists|k: int| 0 <= k < i && deps@[k] >= 2,
            decreases deps@.len() - i,
        {
            if deps[i] != 0 {
                all_zero = false;
            }
            if deps[i] >= 2 {
                any_two = true;
            }
            i += 1;
        }
        if all_zero {
            DependencyShape::FanOut
        } else if any_two {
            DependencyShape::FanIn
        } else if deps.len() == node_count - 1 {
            DependencyShape::Chain
        } else {
            DependencyShape::Dag
        }
    }
}

/// The structure of a finished workflow.
#[derive(Debug, Clone)]
pub struct WorkflowSignature {
    pub shape: DependencyShape,
    pub role_count: usize,
    pub roles_used: Vec<String>,
    pub depth: usize,
    pub critical_path_length: usize,
}

/// One role of a workflow template and the part of the goal it takes.
#[derive(Debug, Clone)]
pub struct TemplateRole {
    pub role_name: String,
    pub goal_fragment: String,
}

} // verus!
