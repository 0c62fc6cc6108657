use mini_claw::locks::ChatLocks;
use mini_claw::text::parse_tenant_id;

#[test]
fn test_chat_locks_new() {
    let _locks = ChatLocks::new();
}

#[test]
fn one_lock_per_tenant() {
    let mut locks = ChatLocks::new();
    let a = locks.lock_for(1);
    let b = locks.lock_for(1);
    let c = locks.lock_for(2);
    assert!(std::sync::Arc::ptr_eq(&a, &b));
    assert!(!std::sync::Arc::ptr_eq(&a, &c));
    let guard = a.try_lock();
    assert!(guard.is_ok());
    assert!(b.try_lock().is_err());
    assert!(c.try_lock().is_ok());
}

#[test]
fn tenant_ids_read_exactly() {
    assert_eq!(parse_tenant_id("123"), Some(123));
    assert_eq!(parse_tenant_id("-9223372036854775808"), Some(i64::MIN));
    assert_eq!(parse_tenant_id("9223372036854775807"), Some(i64::MAX));
    assert_eq!(parse_tenant_id("9223372036854775808"), None);
    assert_eq!(parse_tenant_id("007"), None);
    assert_eq!(parse_tenant_id("-0"), None);
    assert_eq!(parse_tenant_id("+5"), None);
    assert_eq!(parse_tenant_id(""), None);
    assert_eq!(parse_tenant_id("-"), None);
    assert_eq!(parse_tenant_id("0"), Some(0));
}
