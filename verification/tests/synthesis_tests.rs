use workflow::synthesis::{
    aggregation_prompt, inbox_hint, leaf_goal_prompt, leaf_system_prompt, llm_error, plan_synthesis_prompt,
    role_system_prompt, tool_limit_summary_prompt,
};

#[test]
fn system_prompt_falls_back_to_role() {
    assert_eq!(role_system_prompt(None, "coder"), "You are a coder. Execute the given goal.");
    assert_eq!(role_system_prompt(Some("Be brief.".to_string()), "coder"), "Be brief.");
}

#[test]
fn plan_prompt_lists_task_results() {
    let p = plan_synthesis_prompt("ship it", &[(0, "built".to_string()), (2, "tested".to_string())]);
    assert_eq!(
        p,
        "You own this approved plan.\n\nPlan goal: ship it\n\nCompleted task results:\nTask 0:\nbuilt\n\nTask 2:\ntested\n\nSynthesize the final result for the user."
    );
}

#[test]
fn aggregation_prompt_notes_assets() {
    let plain = aggregation_prompt("g", &["[agent]\nA".to_string(), "[agent]\nB".to_string()]);
    assert_eq!(
        plain,
        "You delegated this goal to 2 sub-agent(s).\n\nOriginal goal: g\n\nCompleted sub-task results:\n[agent]\nA\n\n---\n\n[agent]\nB\n\nSynthesize the final result for the user."
    );
    let with_asset = aggregation_prompt("g", &["[w] (asset: 7, hint: log)[done]".to_string()]);
    assert!(with_asset.contains("(NOTE) Some sub-tasks produced large outputs"));
    assert!(with_asset.starts_with("You delegated this goal to 1 sub-agent(s)."));
    assert!(with_asset.ends_with("\n\nSynthesize the final result for the user."));
    let none = aggregation_prompt("g", &[]);
    assert!(none.contains("to 0 sub-agent(s)"));
}

#[test]
fn leaf_agent_prompts() {
    assert_eq!(inbox_hint(0), "");
    assert_eq!(
        inbox_hint(2),
        "\n\nYou have 2 unread message(s) in your inbox. Use the `read_messages` tool to read them before proceeding. Messages may contain important context from sibling agents."
    );
    assert_eq!(leaf_system_prompt("R", "M", "Z", "memo", "hint"), "R\n\nM\n\nZmemohint");
    let g = leaf_goal_prompt("fix the bug");
    assert!(g.starts_with("Your goal: fix the bug\n\nWork independently"));
    assert!(g.contains("Do not request sub-agents \u{2014} you are a leaf agent."));
    assert!(g.ends_with("Do not stop working until the goal is achieved."));
    assert_eq!(
        tool_limit_summary_prompt("partial"),
        "您的工具调用次数已达到上限。根据您已完成的工作，请提供一份全面的总结。\n\n以下是您的部分工作输出：\npartial"
    );
    assert_eq!(llm_error("rate limited"), "LLM error: rate limited");
}
