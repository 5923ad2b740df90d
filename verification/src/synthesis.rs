//! The prompts with which an agent that owns a plan, or that delegated its
//! goal, asks the model to put the results of the work together. Asking
//! the model is the caller's part.
use vstd::prelude::*;
use crate::text::{chars_of, contains_sub, decimal, decimal_string, is_substring};

verus! {

/// `parts` joined with `sep` between them.
pub open spec fn joined_with(parts: Seq<Seq<char>>, sep: Seq<char>) -> Seq<char>
    decreases parts.len(),
{
    if parts.len() == 0 {
        Seq::empty()
    } else if parts.len() == 1 {
        parts[0]
    } else {
        joined_with(parts.drop_last(), sep) + sep + parts.last()
    }
}

/// The system prompt for a role: its template's, or a plain one naming
/// the role.
pub open spec fn system_prompt_of(template_prompt: Option<Seq<char>>, role: Seq<char>) -> Seq<char> {
    match template_prompt {
        Some(p) => p,
        None => "You are a "@ + role + ". Execute the given goal."@,
    }
}

pub fn role_system_prompt(template_prompt: Option<String>, role: &str) -> (r: String)
    ensures
        r@ == system_prompt_of(
            match template_prompt {
                Some(p) => Some(p@),
                None => None,
            },
            role@,
        ),
{
    match template_prompt {
        Some(p) => p,
        None => {
            let mut r = String::from_str("You are a ");
            r.append(role);
            r.append(". Execute the given goal.");
            r
        },
    }
}

/// One task's result as the plan owner reads it.
pub open spec fn task_result_text(id: usize, result: Seq<char>) -> Seq<char> {
    "Task "@ + decimal(id as nat) + ":\n"@ + result
}

pub open spec fn task_result_texts(results: Seq<(usize, String)>) -> Seq<Seq<char>> {
    results.map_values(|p: (usize, String)| task_result_text(p.0, p.1@))
}

/// The prompt that asks the owner of a finished plan for the final result.
pub open spec fn plan_prompt(goal: Seq<char>, results: Seq<(usize, String)>) -> Seq<char> {
    "You own this approved plan.\n\nPlan goal: "@ + goal + "\n\nCompleted task results:\n"@ + joined_with(
        task_result_texts(results),
        "\n\n"@,
    ) + "\n\nSynthesize the final result for the user."@
}

pub fn plan_synthesis_prompt(plan_goal: &str, task_results: &[(usize, String)]) -> (r: String)
    ensures
        r@ == plan_prompt(plan_goal@, task_results@),
{
    let mut summary = String::new();
    let mut i: usize = 0;
    while i < task_results.len()
        invariant
            i <= task_results@.len(),
            summary@ == joined_with(task_result_texts(task_results@.subrange(0, i as int)), "\n\n"@),
        decreases task_results@.len() - i,
    {
        let ghost before = summary@;
        if i > 0 {
            summary.append("\n\n");
        }
        summary.append("Task ");
        summary.append(decimal_string(task_results[i].0).as_str());
        summary.append(":\n");
        summary.append(task_results[i].1.as_str());
        proof {
            let pre = task_result_texts(task_results@.subrange(0, i as int));
            let cur = task_result_texts(task_results@.subrange(0, i + 1));
            assert(cur.drop_last() =~= pre);
            assert(cur.last() == task_result_text(task_results@[i as int].0, task_results@[i as int].1@));
            if i == 0 {
                assert(summary@ =~= cur[0]);
            } else {
                assert(summary@ =~= before + "\n\n"@ + cur.last());
            }
        }
        i += 1;
    }
    assert(task_results@.subrange(0, i as int) =~= task_results@);
    let mut r = String::from_str("You own this approved plan.\n\nPlan goal: ");
    r.append(plan_goal);
    r.append("\n\nCompleted task results:\n");
    r.append(summary.as_str());
    r.append("\n\nSynthesize the final result for the user.");
    r
}

/// The note added when some sub-task result is stored as an asset.
pub open spec fn asset_note() -> Seq<char> {
    "\n\n(NOTE) Some sub-tasks produced large outputs that are stored as assets. If you need details, use `search_asset(asset_id, query)`. Your current context only contains compact summaries. Do not ask for the full raw output unless you truly need it."@
}

fn asset_note_str() -> (s: &'static str)
    ensures
        s@ == asset_note(),
{
    "\n\n(NOTE) Some sub-tasks produced large outputs that are stored as assets. If you need details, use `search_asset(asset_id, query)`. Your current context only contains compact summaries. Do not ask for the full raw output unless you truly need it."
}

pub open spec fn strings_of(v: Seq<String>) -> Seq<Seq<char>> {
    v.map_values(|s: String| s@)
}

/// Some summary points at a stored asset.
pub open spec fn mentions_asset(summaries: Seq<String>) -> bool {
    exists|i: int| 0 <= i < summaries.len() && is_substring("(asset:"@, #[trigger] summaries[i]@)
}

/// The prompt that asks an agent that delegated its goal for the final
/// result out of its sub-agents' summaries.
pub open spec fn aggregation_prompt_text(goal: Seq<char>, summaries: Seq<String>) -> Seq<char> {
    "You delegated this goal to "@ + decimal(summaries.len()) + " sub-agent(s).\n\nOriginal goal: "@ + goal
        + "\n\nCompleted sub-task results:\n"@ + joined_with(strings_of(summaries), "\n\n---\n\n"@) + (if mentions_asset(
        summaries,
    ) {
        asset_note()
    } else {
        Seq::empty()
    }) + "\n\nSynthesize the final result for the user."@
}

pub fn aggregation_prompt(goal: &str, summaries: &[String]) -> (r: String)
    ensures
        r@ == aggregation_prompt_text(goal@, summaries@),
{
    let marker = chars_of("(asset:");
    let mut joined = String::new();
    let mut has_assets = false;
    let mut i: usize = 0;
    while i < summaries.len()
        invariant
            i <= summaries@.len(),
            marker@ == "(asset:"@,
            joined@ == joined_with(strings_of(summaries@.subrange(0, i as int)), "\n\n---\n\n"@),
            has_assets == exists|k: int| 0 <= k < i && is_substring("(asset:"@, #[trigger] summaries@[k]@),
        decreases summaries@.len() - i,
    {
        let ghost before = joined@;
        if i > 0 {
            joined.append("\n\n---\n\n");
        }
        joined.append(summaries[i].as_str());
        let cs = chars_of(summaries[i].as_str());
        if contains_sub(cs.as_slice(), marker.as_slice()) {
            has_assets = true;
        }
        proof {
            let pre = strings_of(summaries@.subrange(0, i as int));
            let cur = strings_of(summaries@.subrange(0, i + 1));
            assert(cur.drop_last() =~= pre);
            assert(cur.last() == summaries@[i as int]@);
            if i == 0 {
                assert(joined@ =~= cur[0]);
            } else {
                assert(joined@ =~= before + "\n\n---\n\n"@ + cur.last());
            }
            if has_assets && !is_substring("(asset:"@, summaries@[i as int]@) {
                assert(exists|k: int| 0 <= k < i && is_substring("(asset:"@, #[trigger] summaries@[k]@));
            }
        }
        i += 1;
    }
    assert(summaries@.subrange(0, i as int) =~= summaries@);
    let mut r = String::from_str("You delegated this goal to ");
    r.append(decimal_string(summaries.len()).as_str());
    r.append(" sub-agent(s).\n\nOriginal goal: ");
    r.append(goal);
    r.append("\n\nCompleted sub-task results:\n");
    r.append(joined.as_str());
    if has_assets {
        r.append(asset_note_str());
    }
    r.append("\n\nSynthesize the final result for the user.");
    r
}

/// The note on unread messages added to a leaf agent's system prompt.
pub open spec fn inbox_hint_text(unread: nat) -> Seq<char> {
    if unread > 0 {
        "\n\nYou have "@ + decimal(unread)
            + " unread message(s) in your inbox. Use the `read_messages` tool to read them before proceeding. Messages may contain important context from sibling agents."@
    } else {
        Seq::empty()
    }
}

pub fn inbox_hint(unread: usize) -> (s: String)
    ensures
        s@ == inbox_hint_text(unread as nat),
{
    if unread > 0 {
        let mut s = String::from_str("\n\nYou have ");
        s.append(decimal_string(unread).as_str());
        s.append(
            " unread message(s) in your inbox. Use the `read_messages` tool to read them before proceeding. Messages may contain important context from sibling agents.",
        );
        s
    } else {
        String::new()
    }
}

/// A leaf agent's system prompt: the role's prompt, the memo and conduct
/// instructions, the role's memos and the inbox note.
pub open spec fn leaf_system_prompt_text(
    role_prompt: Seq<char>,
    memo_instructions: Seq<char>,
    conduct_instructions: Seq<char>,
    memos: Seq<char>,
    inbox_note: Seq<char>,
) -> Seq<char> {
    role_prompt + "\n\n"@ + memo_instructions + "\n\n"@ + conduct_instructions + memos + inbox_note
}

pub fn leaf_system_prompt(
    role_prompt: &str,
    memo_instructions: &str,
    conduct_instructions: &str,
    memos: &str,
    inbox_note: &str,
) -> (s: String)
    ensures
        s@ == leaf_system_prompt_text(role_prompt@, memo_instructions@, conduct_instructions@, memos@, inbox_note@),
{
    let mut s = String::from_str(role_prompt);
    s.append("\n\n");
    s.append(memo_instructions);
    s.append("\n\n");
    s.append(conduct_instructions);
    s.append(memos);
    s.append(inbox_note);
    s
}

/// The rules that follow a leaf agent's goal.
pub open spec fn leaf_rules() -> Seq<char> {
    "\n\nWork independently and produce a concrete result. Do not request sub-agents \u{2014} you are a leaf agent.\n\nRULES:\n1. Use tools freely \u{2014} there is no limit on how many times you can call them.\n2. Keep working until you have a complete, well-researched answer.\n3. When you have enough information, stop and provide your final answer.\n4. If you detect you are calling the same tool with the same arguments 3+ times, you are looping \u{2014} stop and summarize what you have.\n\nYou are a capable engineer. Do not stop working until the goal is achieved."@
}

fn leaf_rules_str() -> (s: &'static str)
    ensures
        s@ == leaf_rules(),
{
    "\n\nWork independently and produce a concrete result. Do not request sub-agents \u{2014} you are a leaf agent.\n\nRULES:\n1. Use tools freely \u{2014} there is no limit on how many times you can call them.\n2. Keep working until you have a complete, well-researched answer.\n3. When you have enough information, stop and provide your final answer.\n4. If you detect you are calling the same tool with the same arguments 3+ times, you are looping \u{2014} stop and summarize what you have.\n\nYou are a capable engineer. Do not stop working until the goal is achieved."
}

/// The prompt that gives a leaf agent its goal.
pub open spec fn leaf_goal_text(goal: Seq<char>) -> Seq<char> {
    "Your goal: "@ + goal + leaf_rules()
}

pub fn leaf_goal_prompt(goal: &str) -> (s: String)
    ensures
        s@ == leaf_goal_text(goal@),
{
    let mut s = String::from_str("Your goal: ");
    s.append(goal);
    s.append(leaf_rules_str());
    s
}

/// The opening of the follow-up prompt once the tool calls ran out.
pub open spec fn tool_limit_opening() -> Seq<char> {
    "\u{60a8}\u{7684}\u{5de5}\u{5177}\u{8c03}\u{7528}\u{6b21}\u{6570}\u{5df2}\u{8fbe}\u{5230}\u{4e0a}\u{9650}\u{3002}\u{6839}\u{636e}\u{60a8}\u{5df2}\u{5b8c}\u{6210}\u{7684}\u{5de5}\u{4f5c}\u{ff0c}\u{8bf7}\u{63d0}\u{4f9b}\u{4e00}\u{4efd}\u{5168}\u{9762}\u{7684}\u{603b}\u{7ed3}\u{3002}\n\n\u{4ee5}\u{4e0b}\u{662f}\u{60a8}\u{7684}\u{90e8}\u{5206}\u{5de5}\u{4f5c}\u{8f93}\u{51fa}\u{ff1a}\n"@
}

/// The follow-up prompt, without tools, that asks an agent whose tool
/// calls ran out to sum up its partial output.
pub open spec fn tool_limit_summary_text(partial: Seq<char>) -> Seq<char> {
    tool_limit_opening() + partial
}

pub fn tool_limit_summary_prompt(partial: &str) -> (s: String)
    ensures
        s@ == tool_limit_summary_text(partial@),
{
    let mut s = String::from_str(
        "\u{60a8}\u{7684}\u{5de5}\u{5177}\u{8c03}\u{7528}\u{6b21}\u{6570}\u{5df2}\u{8fbe}\u{5230}\u{4e0a}\u{9650}\u{3002}\u{6839}\u{636e}\u{60a8}\u{5df2}\u{5b8c}\u{6210}\u{7684}\u{5de5}\u{4f5c}\u{ff0c}\u{8bf7}\u{63d0}\u{4f9b}\u{4e00}\u{4efd}\u{5168}\u{9762}\u{7684}\u{603b}\u{7ed3}\u{3002}\n\n\u{4ee5}\u{4e0b}\u{662f}\u{60a8}\u{7684}\u{90e8}\u{5206}\u{5de5}\u{4f5c}\u{8f93}\u{51fa}\u{ff1a}\n",
    );
    s.append(partial);
    s
}

/// The result of a run whose model call failed.
pub open spec fn llm_error_text(error: Seq<char>) -> Seq<char> {
    "LLM error: "@ + error
}

pub fn llm_error(error: &str) -> (s: String)
    ensures
        s@ == llm_error_text(error@),
{
    let mut s = String::from_str("LLM error: ");
    s.append(error);
    s
}

} // verus!
