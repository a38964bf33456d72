//! Policies on huge pages.

use axcache::error::AxError;
use axcache::mm::policy::{
    current_shmem_thp_policy, current_thp_policy, set_shmem_thp_policy, set_thp_policy, Policies,
    ShmemThpPolicy, ThpPolicy,
};

#[test]
fn policy_is_set_by_name() {
    let mut policies = Policies::new();
    assert_eq!(current_thp_policy(&policies), "madvise");
    assert!(set_thp_policy(&mut policies, " always\n").is_ok());
    assert_eq!(current_thp_policy(&policies), "always");
    assert_eq!(ThpPolicy::parse("x"), None);
}

#[test]
fn a_policy_keeps_its_name() {
    for policy in [ThpPolicy::Always, ThpPolicy::Madvise, ThpPolicy::Never] {
        assert_eq!(ThpPolicy::parse(policy.as_str()), Some(policy));
    }
    for name in ["always", "advise", "never"] {
        let mut policies = Policies::new();
        assert!(set_shmem_thp_policy(&mut policies, name).is_ok());
        assert_eq!(current_shmem_thp_policy(&policies), name);
        assert_eq!(ShmemThpPolicy::parse(name).unwrap().as_str(), name);
    }
}

#[test]
fn a_text_that_names_no_policy_is_refused() {
    let mut policies = Policies::new();
    assert_eq!(set_thp_policy(&mut policies, "sometimes"), Err(AxError::InvalidInput));
    assert_eq!(set_shmem_thp_policy(&mut policies, "sometimes"), Err(AxError::InvalidInput));
    assert_eq!(set_thp_policy(&mut policies, "\u{2003}\t \n"), Ok(vec![]));
    assert_eq!(current_thp_policy(&policies), "madvise");
    assert!(set_thp_policy(&mut policies, "\u{a0}never\u{3000}").is_ok());
    assert_eq!(current_thp_policy(&policies), "never");
}
