use workflow::guard::{tool_bit, BudgetGuard, L0CircuitBreaker, SpawnRejection, TaskResourceState};

#[test]
fn test_budget_acquire_release() {
    let mut state = TaskResourceState::new(1000, 10);
    assert_eq!(state.try_acquire_budget(500), Some(500));
    assert_eq!(state.remaining_budget, 500);
    state.release_budget(500);
    assert_eq!(state.remaining_budget, 1000);
}

#[test]
fn test_budget_insufficient() {
    let mut state = TaskResourceState::new(100, 10);
    assert_eq!(state.try_acquire_budget(200), None);
    assert_eq!(state.remaining_budget, 100);
}

#[test]
fn test_tool_bitmap_acquire_release() {
    let mut state = TaskResourceState::new(1000, 10);
    let tools = 0b1010;
    assert!(state.try_acquire_tools(tools).is_ok());
    assert_eq!(state.tool_bitmap, tools);
    state.release_tools(tools);
    assert_eq!(state.tool_bitmap, 0);
}

#[test]
fn test_tool_bitmap_conflict() {
    let mut state = TaskResourceState::new(1000, 10);
    assert!(state.try_acquire_tools(0b0011).is_ok());
    assert!(state.try_acquire_tools(0b0010).is_err());
}

#[test]
fn test_depth_check() {
    let mut state = TaskResourceState::new(1000, 2);
    assert_eq!(state.increment_depth(), Ok(1));
    assert_eq!(state.increment_depth(), Ok(2));
    assert!(state.increment_depth().is_err());
    state.decrement_depth();
    assert_eq!(state.increment_depth(), Ok(2));
}

#[test]
fn test_budget_guard_drop_rollback() {
    let mut state = TaskResourceState::new(1000, 10);
    let guard = BudgetGuard::new([0u8; 16], 500, &mut state, 0).unwrap();
    assert_eq!(state.remaining_budget, 500);
    guard.release(&mut state);
    assert_eq!(state.remaining_budget, 1000);
}

#[test]
fn test_budget_guard_settle() {
    let mut state = TaskResourceState::new(1000, 10);
    let mut guard = BudgetGuard::new([0u8; 16], 500, &mut state, 0).unwrap();
    assert_eq!(state.remaining_budget, 500);
    guard.settle(300, &mut state);
    assert_eq!(state.remaining_budget, 700);
    guard.release(&mut state);
    assert_eq!(state.remaining_budget, 700);
}

#[test]
fn test_budget_guard_commit_no_rollback() {
    let mut state = TaskResourceState::new(1000, 10);
    let mut guard = BudgetGuard::new([0u8; 16], 500, &mut state, 0).unwrap();
    guard.commit();
    guard.release(&mut state);
    assert_eq!(state.remaining_budget, 500);
}

#[test]
fn test_l0_basic_acquire() {
    let state = TaskResourceState::new(1000, 10);
    let mut breaker = L0CircuitBreaker::new(state);
    let permit = breaker.try_acquire(500, 0, 0);
    assert!(permit.is_ok());
}

#[test]
fn test_l0_depth_exceeded() {
    let state = TaskResourceState::new(1000, 2);
    let mut breaker = L0CircuitBreaker::new(state);
    let p1 = breaker.try_acquire(100, 0, 0).expect("first should succeed");
    let p2 = breaker.try_acquire(100, 1, 0).expect("second should succeed");
    assert!(
        matches!(breaker.try_acquire(100, 2, 0), Err(SpawnRejection::DepthExceeded { .. })),
        "third should fail: depth limit reached"
    );
    breaker.release(p1);
    breaker.release(p2);
    assert!(breaker.try_acquire(100, 2, 0).is_ok(), "after release should succeed");
}

#[test]
fn test_l0_budget_exhausted() {
    let state = TaskResourceState::new(100, 10);
    let mut breaker = L0CircuitBreaker::new(state);
    assert!(matches!(breaker.try_acquire(200, 0, 0), Err(SpawnRejection::BudgetExhausted { .. })));
}

#[test]
fn test_l0_tool_conflict() {
    let state = TaskResourceState::new(1000, 10);
    let mut breaker = L0CircuitBreaker::new(state);
    let _p = breaker.try_acquire(100, 0, 0b101).unwrap();
    assert!(matches!(breaker.try_acquire(100, 0, 0b100), Err(SpawnRejection::ResourceConflict { .. })));
}

#[test]
fn test_l0_permit_drop_rollback() {
    let state = TaskResourceState::new(1000, 10);
    let mut breaker = L0CircuitBreaker::new(state);
    {
        let p = breaker.try_acquire(500, 0, 0b1).unwrap();
        assert_eq!(breaker.remaining_budget(), 500);
        breaker.release(p);
    }
    assert_eq!(breaker.remaining_budget(), 1000);
}

#[test]
fn test_l0_permit_into_budget_guard() {
    let state = TaskResourceState::new(1000, 10);
    let mut breaker = L0CircuitBreaker::new(state);
    let permit = breaker.try_acquire(300, 0, 0).unwrap();
    let guard = permit.into_budget_guard([42u8; 16]);
    assert!(guard.is_some());
    assert_eq!(guard.unwrap().amount(), 300);
}

#[test]
fn release_restores_every_resource() {
    let state = TaskResourceState::new(1000, 3);
    let mut breaker = L0CircuitBreaker::new(state);
    let before = *breaker.state();
    let p = breaker.try_acquire(250, 0, 0b110).unwrap();
    assert_eq!(breaker.state().tool_bitmap, 0b110);
    assert_eq!(breaker.state().current_depth, 1);
    breaker.release(p);
    let after = *breaker.state();
    assert_eq!(after.remaining_budget, before.remaining_budget);
    assert_eq!(after.tool_bitmap, before.tool_bitmap);
    assert_eq!(after.current_depth, before.current_depth);
}

#[test]
fn refused_acquire_leaves_state_alone() {
    let state = TaskResourceState::new(100, 3);
    let mut breaker = L0CircuitBreaker::new(state);
    let _p = breaker.try_acquire(10, 0, 0b1).unwrap();
    let before = *breaker.state();
    assert!(breaker.try_acquire(10, 1, 0b1).is_err());
    let after = *breaker.state();
    assert_eq!(after.remaining_budget, before.remaining_budget);
    assert_eq!(after.current_depth, before.current_depth);
    assert_eq!(after.tool_bitmap, before.tool_bitmap);
}

#[test]
fn tool_bits_follow_name_order() {
    assert_eq!(tool_bit("read_file"), 1);
    assert_eq!(tool_bit("sh"), 4);
    assert_eq!(tool_bit("diff_edit"), 1 << 12);
    assert_eq!(tool_bit("unknown_tool"), 0);
    assert_eq!(tool_bit(""), 0);
}

#[test]
fn guard_takes_budget_and_tools_or_nothing() {
    let mut state = TaskResourceState::new(1000, 10);
    assert!(state.try_acquire_tools(0b01).is_ok());
    // the second bit is free: both budget and bit are taken
    let g = BudgetGuard::new([1u8; 16], 100, &mut state, 0b10).expect("free bit");
    assert_eq!(state.remaining_budget, 900);
    assert_eq!(state.tool_bitmap, 0b11);
    // a held bit refuses the guard and leaves the state as it was
    assert!(BudgetGuard::new([2u8; 16], 100, &mut state, 0b01).is_none());
    assert_eq!(state.remaining_budget, 900);
    assert_eq!(state.tool_bitmap, 0b11);
    g.release(&mut state);
    assert_eq!(state.remaining_budget, 1000);
    assert_eq!(state.tool_bitmap, 0b01);
}

#[test]
fn requests_above_the_signed_range_read_as_negative() {
    // a request of u64::MAX is read as -1 by the budget counter
    let mut state = TaskResourceState::new(10, 10);
    assert_eq!(state.try_acquire_budget(u64::MAX), Some(u64::MAX));
    assert_eq!(state.remaining_budget, 11);
    state.release_budget(u64::MAX);
    assert_eq!(state.remaining_budget, 10);
}
