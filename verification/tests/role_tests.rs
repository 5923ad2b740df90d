use workflow::role::{Experience, ExperiencePool, MAX_EXPERIENCES_PER_ROLE};

fn exp(role: &str, t: u64) -> Experience {
    Experience::new(role.to_string(), "goal".into(), vec![], "summary".into(), format!("c{}", t), t).unwrap()
}

#[test]
fn experience_limits() {
    assert!(Experience::new("r".into(), "x".repeat(1025), vec![], String::new(), String::new(), 0).is_none());
    assert!(Experience::new("r".into(), String::new(), vec![String::new(); 1025], String::new(), String::new(), 0).is_none());
    let e = Experience::new("r".into(), "x".repeat(1024), vec![], String::new(), "ok".into(), 9).unwrap();
    assert_eq!(e.role_id(), "r");
    assert_eq!(e.comment(), "ok");
    assert_eq!(e.timestamp(), 9);
}

#[test]
fn pool_keeps_order_and_roles() {
    let mut pool = ExperiencePool::new();
    assert!(pool.is_empty());
    pool.add("a".into(), exp("a", 1));
    pool.add("b".into(), exp("b", 2));
    pool.add("a".into(), exp("a", 3));
    assert_eq!(pool.len(), 2);
    let a: Vec<u64> = pool.query_vec(&"a".to_string()).iter().map(|e| e.timestamp()).collect();
    assert_eq!(a, vec![1, 3]);
    assert!(pool.query_vec(&"zzz".to_string()).is_empty());
    pool.clear_role(&"a".to_string());
    assert_eq!(pool.len(), 1);
    assert!(pool.query_vec(&"a".to_string()).is_empty());
    pool.clear();
    assert!(pool.is_empty());
}

#[test]
fn pool_evicts_oldest_when_full() {
    let mut pool = ExperiencePool::new();
    for t in 0..(MAX_EXPERIENCES_PER_ROLE as u64 + 5) {
        pool.add("r".into(), exp("r", t));
    }
    let v = pool.query_vec(&"r".to_string());
    assert_eq!(v.len(), MAX_EXPERIENCES_PER_ROLE);
    assert_eq!(v[0].timestamp(), 5);
    let q = pool.query(&"r".to_string());
    assert!(q.is_empty() || q.len() == MAX_EXPERIENCES_PER_ROLE);
}

use workflow::orchestrate::RoleChecker;
use workflow::role::{Role, RolePool};

#[test]
fn role_pool_default_and_add() {
    let mut pool = RolePool::default();
    assert_eq!(pool.get(&String::new()).map(|r| r.name()), Some("planner"));
    assert_eq!(pool.get(&"executor".to_string()).map(|r| r.definition()), Some("I should execute the plan"));
    assert!(pool.get(&"coder".to_string()).is_none());
    pool.add("coder".to_string(), Role::new("coder".into(), "writes code".into(), vec![1, 2]));
    assert_eq!(pool.get(&"coder".to_string()).map(|r| r.tools().to_vec()), Some(vec![1, 2]));
    pool.add("coder".to_string(), Role::new("coder".into(), "writes better code".into(), vec![]));
    assert_eq!(pool.get(&"coder".to_string()).map(|r| r.definition()), Some("writes better code"));
    assert_eq!(pool.list().len(), 3);
    assert!(pool.role_exists("coder"));
    assert!(!pool.role_exists("tester"));
}

#[test]
fn role_pool_from_pairs_later_wins() {
    let pool = RolePool::new(vec![
        ("a".to_string(), Role::new("first".into(), String::new(), vec![])),
        ("a".to_string(), Role::new("second".into(), String::new(), vec![])),
    ]);
    assert_eq!(pool.list().len(), 1);
    assert_eq!(pool.get(&"a".to_string()).map(|r| r.name()), Some("second"));
}

#[test]
fn pool_length_counts_roles() {
    let mut p = ExperiencePool::new();
    p.add("a".into(), Experience::new("a".into(), "g".into(), vec![], "s".into(), "c1".into(), 1).unwrap());
    p.add("a".into(), Experience::new("a".into(), "g".into(), vec![], "s".into(), "c2".into(), 2).unwrap());
    p.add("b".into(), Experience::new("b".into(), "g".into(), vec![], "s".into(), "c3".into(), 3).unwrap());
    assert_eq!(p.len(), 2);
    assert!(!p.is_empty());
    p.clear_role(&"a".to_string());
    assert_eq!(p.len(), 1);
    assert!(p.query_vec(&"a".to_string()).is_empty());
    assert_eq!(p.query_vec(&"b".to_string()).len(), 1);
    p.clear_role(&"zzz".to_string());
    assert_eq!(p.len(), 1);
}
