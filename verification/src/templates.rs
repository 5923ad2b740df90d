//! Instantiating a workflow template under a task: the goal each role's
//! child task gets, and which of the template's dependency edges link the
//! children that were created. Creating the tasks is the graph's part.
use vstd::prelude::*;
use crate::types::TemplateRole;

verus! {

/// Turns a template into child tasks.
pub struct TemplateInstantiation;

/// The goal of the child task for a role: the role's part of the goal, or
/// a plain one naming the role where that part is empty.
pub open spec fn child_goal_of(role_name: Seq<char>, goal_fragment: Seq<char>) -> Seq<char> {
    if goal_fragment.len() == 0 {
        role_name + " task from template"@
    } else {
        goal_fragment
    }
}

/// The links that the first `k` template edges give between `spawned`
/// children, as (dependent, prerequisite) positions; an edge that names a
/// child that was not created gives none.
pub open spec fn template_links(edges: Seq<(usize, usize)>, spawned: nat, k: int) -> Seq<(usize, usize)>
    decreases k,
{
    if k <= 0 {
        Seq::empty()
    } else {
        let prev = template_links(edges, spawned, k - 1);
        let (prereq, dep) = edges[k - 1];
        if prereq < spawned && dep < spawned {
            prev.push((dep, prereq))
        } else {
            prev
        }
    }
}

impl TemplateInstantiation {
    /// The goal of the child task created for `role`.
    pub fn child_goal(role: &TemplateRole) -> (g: String)
        ensures
            g@ == child_goal_of(role.role_name@, role.goal_fragment@),
    {
        if role.goal_fragment.as_str().is_empty() {
            let mut g = role.role_name.clone();
            g.append(" task from template");
            g
        } else {
            role.goal_fragment.clone()
        }
    }

    /// The dependencies to add once `spawned` children were created, one
    /// per template edge (prerequisite, dependent) whose two ends both
    /// exist, in the template's order.
    pub fn dependency_links(edges: &[(usize, usize)], spawned: usize) -> (r: Vec<(usize, usize)>)
        ensures
            r@ == template_links(edges@, spawned as nat, edges@.len() as int),
    {
        let mut r: Vec<(usize, usize)> = Vec::new();
        let mut k: usize = 0;
        while k < edges.len()
            invariant
                k <= edges@.len(),
                r@ == template_links(edges@, spawned as nat, k as int),
            decreases edges@.len() - k,
        {
            let (prereq, dep) = edges[k];
            if prereq < spawned && dep < spawned {
                r.push((dep, prereq));
            }
            k += 1;
        }
        r
    }
}

} // verus!
