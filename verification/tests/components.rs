use motionstate::cache::Cache;
use motionstate::codec::Value;
use motionstate::errors::StateError;
use motionstate::keys::store_url;
use motionstate::keys::strip_prefix;
use motionstate::lock::AcquireOutcome;
use motionstate::lock::LockCoordinator;
use motionstate::lock::LockStep;
use motionstate::lock::LOCK_MAX_ATTEMPTS;
use motionstate::lock::LOCK_RETRY_MILLIS;
use motionstate::state_value::StateValue;
use motionstate::temp_value::TempValue;

fn s(text: &str) -> String {
    text.to_string()
}

#[test]
fn it_works() {
    assert_eq!(2 + 2, 4);
}

#[test]
fn test_tempvalue_creation() {
    let instance = TempValue::new(Value::Str(s("hello")), 100);
    let ttl_value = instance.ttl();
    assert_eq!(ttl_value, 100);
    assert_eq!(*instance.value(), Value::Str(s("hello")));
}

#[test]
fn tempvalue_ttl_can_be_replaced() {
    let mut instance = TempValue::new(Value::Int(1), 100);
    instance.set_ttl(25);
    assert_eq!(instance.ttl(), 25);
    assert_eq!(*instance.value(), Value::Int(1));
}

#[test]
fn test_not_implemented() {
    let result = StateValue::load(b"some_data");
    assert!(result.is_err());

    let obj = StateValue::new();
    let result = obj.save();
    assert!(result.is_err());
}

#[test]
fn lock_retries_then_times_out() {
    let mut coordinator = LockCoordinator::new(LOCK_MAX_ATTEMPTS);
    assert_eq!(
        coordinator.on_outcome(&AcquireOutcome::Busy),
        LockStep::RetryAfter(LOCK_RETRY_MILLIS)
    );
    assert_eq!(
        coordinator.on_outcome(&AcquireOutcome::Busy),
        LockStep::RetryAfter(LOCK_RETRY_MILLIS)
    );
    assert_eq!(
        coordinator.on_outcome(&AcquireOutcome::Busy),
        LockStep::GiveUp(StateError::LockTimeout)
    );
}

#[test]
fn lock_grant_proceeds() {
    let mut coordinator = LockCoordinator::new(LOCK_MAX_ATTEMPTS);
    assert_eq!(
        coordinator.on_outcome(&AcquireOutcome::Busy),
        LockStep::RetryAfter(LOCK_RETRY_MILLIS)
    );
    assert_eq!(
        coordinator.on_outcome(&AcquireOutcome::Acquired),
        LockStep::Proceed
    );
}

#[test]
fn lock_transport_fault_gives_up_at_once() {
    let mut coordinator = LockCoordinator::new(LOCK_MAX_ATTEMPTS);
    assert_eq!(
        coordinator.on_outcome(&AcquireOutcome::Faulted),
        LockStep::GiveUp(StateError::Connection)
    );
}

#[test]
fn cache_put_get_remove_clear() {
    let mut cache = Cache::new();
    assert!(cache.get("k").is_none());

    cache.put(s("k"), vec![1, 2, 3]);
    assert_eq!(cache.get("k"), Some(&vec![1, 2, 3]));

    cache.put(s("k"), vec![4]);
    assert_eq!(cache.get("k"), Some(&vec![4]));

    cache.remove("k");
    assert!(cache.get("k").is_none());

    cache.put(s("a"), vec![1]);
    cache.put(s("b"), vec![2]);
    cache.clear();
    assert!(cache.get("a").is_none());
    assert!(cache.get("b").is_none());
}

#[test]
fn strip_prefix_variants() {
    assert_eq!(strip_prefix("pre/", "pre/rest"), s("rest"));
    assert_eq!(strip_prefix("pre/", "other"), s("other"));
    assert_eq!(strip_prefix("pre/", "pre/"), s(""));
    assert_eq!(strip_prefix("long-prefix", "short"), s("short"));
    assert_eq!(strip_prefix("", "x"), s("x"));
}

#[test]
fn store_url_formats() {
    assert_eq!(
        store_url("127.0.0.1", 6381, 0, None, false),
        s("redis://127.0.0.1:6381/0")
    );
    assert_eq!(
        store_url("db.example", 6380, 2, Some("pw"), true),
        s("rediss://:pw@db.example:6380/2")
    );
}

#[test]
fn error_messages_name_each_failure() {
    assert_eq!(StateError::Connection.message(), "connection error");
    assert_eq!(StateError::LockTimeout.message(), "lock timeout");
    assert_eq!(StateError::KeyNotFound.message(), "key not found");
    assert_eq!(StateError::Commit.message(), "commit error");
    assert_eq!(StateError::Encoding.message(), "encoding error");
}
