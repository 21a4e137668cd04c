use motionstate::accessor::BulkValue;
use motionstate::lock::AcquireOutcome;
use motionstate::lock::LockCoordinator;
use motionstate::lock::LockStep;
use motionstate::accessor::CommitOutcome;
use motionstate::accessor::FetchOutcome;
use motionstate::accessor::StateAccessor;
use motionstate::codec::Value;
use motionstate::errors::StateError;
use motionstate::temp_value::TempValue;
use motionstate::writer::StoreCommand;

fn s(text: &str) -> String {
    text.to_string()
}

fn fresh() -> StateAccessor {
    StateAccessor::new(s("component"), s("instance"), 180, None)
}

#[test]
fn set_then_get_returns_the_integer() {
    let mut state = fresh();
    let plan = state.set_plan("x", &Value::Int(42), None);
    state.set(&plan, &CommitOutcome::Committed).unwrap();
    assert_eq!(state.version(), 1);
    assert_eq!(state.get_cached("x"), Some(Value::Int(42)));
}

#[test]
fn get_missing_on_empty_namespace_is_key_not_found() {
    let mut state = fresh();
    assert_eq!(state.get_cached("missing"), None);
    let r = state.get("missing", FetchOutcome::Missing);
    assert_eq!(r, Err(StateError::KeyNotFound));
    assert_eq!(state.version(), 0);
}

#[test]
fn store_fault_on_get_is_connection_error() {
    let mut state = fresh();
    let r = state.get("x", FetchOutcome::Faulted);
    assert_eq!(r, Err(StateError::Connection));
}

#[test]
fn rollback_leaves_state_identical() {
    let mut state = fresh();
    let plan = state.set_plan("x", &Value::Int(1), None);
    state.set(&plan, &CommitOutcome::Committed).unwrap();
    let version_before = state.version();

    let failing = state.set_plan("y", &Value::Int(2), None);
    let r = state.set(&failing, &CommitOutcome::Failed);
    assert_eq!(r, Err(StateError::Commit));
    assert_eq!(state.version(), version_before);
    assert_eq!(state.get_cached("y"), None);
    assert_eq!(state.get_cached("x"), Some(Value::Int(1)));
}

#[test]
fn version_rises_once_per_successful_write() {
    let mut state = fresh();
    assert_eq!(state.version(), 0);

    let plan = state.set_plan("a", &Value::Int(1), None);
    state.set(&plan, &CommitOutcome::Committed).unwrap();

    let items = vec![
        (s("b"), BulkValue::Plain(Value::Int(2))),
        (s("c"), BulkValue::Plain(Value::Int(3))),
    ];
    let plan = state.bulk_set_plan(&items, false);
    state.bulk_set(&plan, &CommitOutcome::Committed).unwrap();

    let plan = state.set_plan("d", &Value::Int(4), None);
    state.set(&plan, &CommitOutcome::Committed).unwrap();

    // Three successful write calls: version is initial plus three,
    // however many items each call carried.
    assert_eq!(state.version(), 3);

    let plan = state.set_plan("e", &Value::Int(5), None);
    let _ = state.set(&plan, &CommitOutcome::Failed);
    assert_eq!(state.version(), 3);
}

#[test]
fn cache_test() {
    let mut state = fresh();

    let items = vec![(s("test_key"), BulkValue::Plain(Value::Int(42)))];
    let plan = state.bulk_set_plan(&items, false);
    state.bulk_set(&plan, &CommitOutcome::Committed).unwrap();
    let stored = plan.writes[0].value.clone();

    // Clear the cache to force the next read to come from the store.
    state.clear_cache(Some(1));
    assert_eq!(state.version(), 1);
    assert_eq!(state.get_cached("test_key"), None);

    let first_fetch = state.get("test_key", FetchOutcome::Found(stored)).unwrap();
    assert_eq!(first_fetch, Value::Int(42));

    // This one is served from the cache.
    let second_fetch = state.get_cached("test_key").unwrap();
    assert_eq!(second_fetch, Value::Int(42));
}

#[test]
fn bulk_set_clear_cache_items_scenario() {
    let mut state = fresh();
    let items = vec![
        (s("a"), BulkValue::Plain(Value::Int(1))),
        (
            s("b"),
            BulkValue::Plain(Value::List(vec![
                Value::Int(1),
                Value::Int(2),
                Value::Str(s("c")),
            ])),
        ),
    ];
    let plan = state.bulk_set_plan(&items, false);
    state.bulk_set(&plan, &CommitOutcome::Committed).unwrap();
    let stored_a = plan.writes[0].value.clone();
    let stored_b = plan.writes[1].value.clone();

    state.clear_cache(Some(1));

    let listing = vec![state.fq_key("a"), state.fq_key("b")];
    let fetched = vec![Some(stored_a), Some(stored_b)];
    let got = state.items(&listing, &fetched).unwrap();

    assert_eq!(got.len(), 2);
    assert!(got.contains(&(s("a"), Value::Int(1))));
    assert!(got.contains(&(
        s("b"),
        Value::List(vec![Value::Int(1), Value::Int(2), Value::Str(s("c"))])
    )));
}

#[test]
fn items_prefers_the_cache_and_writes_misses_through() {
    let mut state = fresh();
    let plan = state.set_plan("a", &Value::Int(1), None);
    state.set(&plan, &CommitOutcome::Committed).unwrap();

    let stored_b = motionstate::codec::encode(&Value::Int(2));

    let listing = vec![state.fq_key("a"), state.fq_key("b")];
    // "a" is cached, so only "b" needs bytes; a slot for "a" is ignored.
    let fetched = vec![None, Some(stored_b)];
    let got = state.items(&listing, &fetched).unwrap();
    assert_eq!(got, vec![(s("a"), Value::Int(1)), (s("b"), Value::Int(2))]);

    // The miss was written through: both now come from the cache.
    assert_eq!(state.get_cached("b"), Some(Value::Int(2)));
}

#[test]
fn items_without_bytes_for_a_miss_is_key_not_found() {
    let mut state = fresh();
    let listing = vec![state.fq_key("ghost")];
    let fetched = vec![None];
    assert_eq!(state.items(&listing, &fetched), Err(StateError::KeyNotFound));
}

#[test]
fn values_keeps_listing_order() {
    let mut state = fresh();
    let items = vec![
        (s("a"), BulkValue::Plain(Value::Int(1))),
        (s("b"), BulkValue::Plain(Value::Int(2))),
    ];
    let plan = state.bulk_set_plan(&items, false);
    state.bulk_set(&plan, &CommitOutcome::Committed).unwrap();

    let listing = vec![state.fq_key("a"), state.fq_key("b")];
    let fetched = vec![None, None];
    let got = state.values(&listing, &fetched).unwrap();
    assert_eq!(got, vec![Value::Int(1), Value::Int(2)]);
}

#[test]
fn keys_strips_the_namespace_prefix() {
    let state = fresh();
    let listing = vec![
        s("STATE:component__instance/alpha"),
        s("STATE:component__instance/beta"),
    ];
    let got = state.keys(&listing);
    assert_eq!(got, vec![s("alpha"), s("beta")]);
}

#[test]
fn clear_cache_resynchronises_the_version() {
    let mut state = fresh();
    let plan = state.set_plan("x", &Value::Int(1), None);
    state.set(&plan, &CommitOutcome::Committed).unwrap();
    assert_eq!(state.version(), 1);

    // The durable counter says seven: the local mirror follows it.
    state.clear_cache(Some(7));
    assert_eq!(state.version(), 7);

    // An absent durable counter reads as zero.
    state.clear_cache(None);
    assert_eq!(state.version(), 0);
}

#[test]
fn namespace_key_formats() {
    let state = fresh();
    assert_eq!(state.fq_key("k"), s("STATE:component__instance/k"));
    assert_eq!(state.version_key(), s("VERSION:component__instance"));
    assert_eq!(state.lock_name(), s("LOCK:component__instance"));
    assert_eq!(state.key_pattern(), s("STATE:component__instance/*"));
}

#[test]
fn bulk_plan_carries_ttl_from_wrapped_values() {
    let state = fresh();
    let items = vec![
        (s("plain"), BulkValue::Plain(Value::Int(1))),
        (
            s("short"),
            BulkValue::Expiring(TempValue::new(Value::Int(2), 60)),
        ),
    ];
    let plan = state.bulk_set_plan(&items, false);
    assert_eq!(plan.writes.len(), 2);
    assert_eq!(plan.writes[0].ttl, None);
    assert_eq!(plan.writes[1].ttl, Some(60));
    assert!(plan.lock_required);

    let skipped = state.bulk_set_plan(&items, true);
    assert!(!skipped.lock_required);
}

#[test]
fn batch_orders_data_writes_then_version() {
    let state = fresh();
    let items = vec![
        (s("plain"), BulkValue::Plain(Value::Int(1))),
        (
            s("short"),
            BulkValue::Expiring(TempValue::new(Value::Int(2), 60)),
        ),
    ];
    let plan = state.bulk_set_plan(&items, false);
    let commands = motionstate::writer::batch(&plan);
    assert_eq!(commands.len(), 3);
    match &commands[0] {
        StoreCommand::Put { key, value } => {
            assert_eq!(key, "STATE:component__instance/plain");
            assert_eq!(value, b"1");
        }
        other => panic!("expected a plain put, got {other:?}"),
    }
    match &commands[1] {
        StoreCommand::PutExpiring { key, ttl, value } => {
            assert_eq!(key, "STATE:component__instance/short");
            assert_eq!(*ttl, 60);
            assert_eq!(value, b"2");
        }
        other => panic!("expected an expiring put, got {other:?}"),
    }
    match &commands[2] {
        StoreCommand::Put { key, value } => {
            assert_eq!(key, "VERSION:component__instance");
            assert_eq!(value, b"1");
        }
        other => panic!("expected the version put, got {other:?}"),
    }
}

#[test]
fn two_writers_are_serialized_by_the_lock() {
    // Two processes against one namespace. The first wins the lock and
    // commits; the second sees the lock busy until the first releases,
    // then commits against the version the first established. The
    // counter rises by exactly the number of successful commits.
    let mut first = fresh();
    let mut first_lock = LockCoordinator::new(first.max_lock_attempts());
    assert_eq!(
        first_lock.on_outcome(&AcquireOutcome::Acquired),
        LockStep::Proceed
    );
    let plan = first.set_plan("x", &Value::Int(1), None);
    first.set(&plan, &CommitOutcome::Committed).unwrap();
    assert_eq!(plan.new_version, 1);

    let mut second = StateAccessor::new(s("component"), s("instance"), 180, Some(first.version()));
    let mut second_lock = LockCoordinator::new(second.max_lock_attempts());
    assert_eq!(
        second_lock.on_outcome(&AcquireOutcome::Busy),
        LockStep::RetryAfter(motionstate::lock::LOCK_RETRY_MILLIS)
    );
    // The first writer released; the retry is granted.
    assert_eq!(
        second_lock.on_outcome(&AcquireOutcome::Acquired),
        LockStep::Proceed
    );
    let plan = second.set_plan("x", &Value::Int(2), None);
    second.set(&plan, &CommitOutcome::Committed).unwrap();

    // Two successful commits in total: the durable counter went 0, 1, 2.
    assert_eq!(plan.new_version, 2);
    assert_eq!(second.version(), 2);
}

#[test]
fn namespaces_are_isolated_by_their_names() {
    let a = StateAccessor::new(s("component"), s("one"), 180, None);
    let b = StateAccessor::new(s("component"), s("two"), 180, None);
    assert_ne!(a.fq_key("k"), b.fq_key("k"));
    assert_ne!(a.lock_name(), b.lock_name());
    assert_ne!(a.version_key(), b.version_key());
}
