use std::sync::Arc;
use std::sync::atomic::{AtomicUsize, Ordering};

use injector::{Container, FromContainer, Injectable, InjectionError, Instance, wrap_injectable};

const GREETER_ID: u64 = 1;
const LOGGER_ID: u64 = 2;
const DEP_ID: u64 = 3;

/// A test factory producing `String` instances: it stamps its result with
/// `tag`, counts its invocations, optionally resolves another capability
/// first, and optionally fails.
struct TagFactory {
    tag: u64,
    label: String,
    counter: Arc<AtomicUsize>,
    dep: Option<u64>,
    fail: bool,
}

impl TagFactory {
    fn plain(tag: u64, label: &str, counter: &Arc<AtomicUsize>) -> TagFactory {
        TagFactory {
            tag,
            label: label.to_string(),
            counter: Arc::clone(counter),
            dep: None,
            fail: false,
        }
    }
}

impl Injectable<String> for TagFactory {
    fn resolve_injectable(
        &self,
        container: &mut Container<Self, String>,
    ) -> Result<Instance<String>, InjectionError> {
        if self.fail {
            return Err(InjectionError::TypeNotBound);
        }
        let value = match self.dep {
            Some(dep_id) => {
                let nested = container.resolve_mut(dep_id)?;
                format!("{}+{}", self.label, nested)
            }
            None => self.label.clone(),
        };
        self.counter.fetch_add(1, Ordering::SeqCst);
        Ok(wrap_injectable(self.tag, value))
    }
}

fn counter() -> Arc<AtomicUsize> {
    Arc::new(AtomicUsize::new(0))
}

#[test]
fn unbound_capability_fails_both_forms() {
    let mut container: Container<TagFactory, String> = Container::new();
    assert_eq!(
        container.resolve(GREETER_ID),
        Err(InjectionError::TypeNotBound)
    );
    assert_eq!(
        container.resolve_mut(GREETER_ID),
        Err(InjectionError::TypeNotBound)
    );
}

#[test]
fn logger_never_bound_resolve_fails() {
    let calls = counter();
    let container: Container<TagFactory, String> =
        Container::new().bind_singleton(GREETER_ID, TagFactory::plain(GREETER_ID, "hi", &calls));
    assert_eq!(
        container.resolve(LOGGER_ID),
        Err(InjectionError::TypeNotBound)
    );
    assert_eq!(calls.load(Ordering::SeqCst), 0);
}

#[test]
fn singleton_resolutions_share_one_instance() {
    let calls = counter();
    let mut container: Container<TagFactory, String> =
        Container::new().bind_singleton(GREETER_ID, TagFactory::plain(GREETER_ID, "hi", &calls));

    let first = container.resolve_mut(GREETER_ID).unwrap();
    let second = container.resolve_mut(GREETER_ID).unwrap();

    assert!(Arc::ptr_eq(&first, &second));
    assert_eq!(calls.load(Ordering::SeqCst), 1);
}

#[test]
fn transient_factory_runs_on_each_resolution() {
    let calls = counter();
    let mut container: Container<TagFactory, String> =
        Container::new().bind_transient(GREETER_ID, TagFactory::plain(GREETER_ID, "hi", &calls));

    let first = container.resolve_mut(GREETER_ID).unwrap();
    let second = container.resolve(GREETER_ID).unwrap();
    let third = container.resolve(GREETER_ID).unwrap();

    assert_eq!(calls.load(Ordering::SeqCst), 3);
    assert!(!Arc::ptr_eq(&first, &second));
    assert!(!Arc::ptr_eq(&second, &third));
    assert_eq!(first.as_str(), "hi");
    assert_eq!(second.as_str(), "hi");
}

#[test]
fn build_then_resolutions_never_rerun_factory() {
    let calls = counter();
    let container: Container<TagFactory, String> = Container::new()
        .bind_singleton(GREETER_ID, TagFactory::plain(GREETER_ID, "hi", &calls))
        .build()
        .unwrap();
    assert_eq!(calls.load(Ordering::SeqCst), 1);

    let first = container.resolve(GREETER_ID).unwrap();
    let second = container.resolve(GREETER_ID).unwrap();
    let mut container = container;
    let third = container.resolve_mut(GREETER_ID).unwrap();

    assert_eq!(calls.load(Ordering::SeqCst), 1);
    assert!(Arc::ptr_eq(&first, &second));
    assert!(Arc::ptr_eq(&second, &third));
}

#[test]
fn readonly_resolution_of_unbuilt_singleton_reruns_factory() {
    let calls = counter();
    let container: Container<TagFactory, String> =
        Container::new().bind_singleton(GREETER_ID, TagFactory::plain(GREETER_ID, "hi", &calls));

    let first = container.resolve(GREETER_ID).unwrap();
    let second = container.resolve(GREETER_ID).unwrap();

    // the read-only form works on a private copy: nothing was persisted
    assert_eq!(calls.load(Ordering::SeqCst), 2);
    assert!(!Arc::ptr_eq(&first, &second));

    let mut container = container;
    let _ = container.resolve_mut(GREETER_ID).unwrap();
    assert_eq!(calls.load(Ordering::SeqCst), 3);
}

#[test]
fn merge_prefers_other_on_collision() {
    let base_calls = counter();
    let other_calls = counter();
    let base: Container<TagFactory, String> = Container::new().bind_singleton(
        GREETER_ID,
        TagFactory::plain(GREETER_ID, "base", &base_calls),
    );
    let other: Container<TagFactory, String> = Container::new().bind_singleton(
        GREETER_ID,
        TagFactory::plain(GREETER_ID, "other", &other_calls),
    );

    let mut merged = base.bind_container_into(other);
    let got = merged.resolve_mut(GREETER_ID).unwrap();

    assert_eq!(got.as_str(), "other");
    assert_eq!(base_calls.load(Ordering::SeqCst), 0);
    assert_eq!(other_calls.load(Ordering::SeqCst), 1);
}

#[test]
fn nested_resolution_keeps_nested_lifecycle() {
    let dep_calls = counter();
    let outer_calls = counter();
    let mut container: Container<TagFactory, String> = Container::new()
        .bind_singleton(DEP_ID, TagFactory::plain(DEP_ID, "dep", &dep_calls))
        .bind_transient(
            GREETER_ID,
            TagFactory {
                tag: GREETER_ID,
                label: "outer".to_string(),
                counter: Arc::clone(&outer_calls),
                dep: Some(DEP_ID),
                fail: false,
            },
        );

    let first = container.resolve_mut(GREETER_ID).unwrap();
    let second = container.resolve_mut(GREETER_ID).unwrap();

    assert_eq!(first.as_str(), "outer+dep");
    assert_eq!(second.as_str(), "outer+dep");
    // the outer transient ran twice; its singleton dependency ran once,
    // cached by the recursive resolution inside the first factory run
    assert_eq!(outer_calls.load(Ordering::SeqCst), 2);
    assert_eq!(dep_calls.load(Ordering::SeqCst), 1);
}

#[test]
fn greeter_singleton_then_transient_counts() {
    let calls = counter();
    let mut container: Container<TagFactory, String> = Container::new().bind_singleton(
        GREETER_ID,
        TagFactory::plain(GREETER_ID, "greetings", &calls),
    );

    let first = container.resolve_mut(GREETER_ID).unwrap();
    let second = container.resolve_mut(GREETER_ID).unwrap();
    let third = container.resolve_mut(GREETER_ID).unwrap();
    assert_eq!(calls.load(Ordering::SeqCst), 1);
    assert_eq!(first.as_str(), "greetings");
    assert_eq!(second.as_str(), "greetings");
    assert_eq!(third.as_str(), "greetings");

    let mut container = container.bind_transient(
        GREETER_ID,
        TagFactory::plain(GREETER_ID, "greetings", &calls),
    );
    let _ = container.resolve_mut(GREETER_ID).unwrap();
    let _ = container.resolve_mut(GREETER_ID).unwrap();
    let _ = container.resolve_mut(GREETER_ID).unwrap();
    // three more invocations on top of the single one before the rebind
    assert_eq!(calls.load(Ordering::SeqCst), 4);
}

#[test]
fn child_singleton_built_into_parent_runs_once() {
    let calls = counter();
    let child: Container<TagFactory, String> =
        Container::new().bind_singleton(GREETER_ID, TagFactory::plain(GREETER_ID, "hi", &calls));
    let parent = Container::new().bind_container_into(child);

    let built = parent.build().unwrap();
    assert_eq!(calls.load(Ordering::SeqCst), 1);

    let first = built.resolve(GREETER_ID).unwrap();
    let second = built.resolve(GREETER_ID).unwrap();

    assert_eq!(calls.load(Ordering::SeqCst), 1);
    assert_eq!(first.as_str(), "hi");
    assert!(Arc::ptr_eq(&first, &second));
}

#[test]
fn mismatched_tag_resolves_to_not_bound() {
    let calls = counter();
    // the factory stamps its product with LOGGER_ID although it is bound
    // under GREETER_ID, so the downcast check must reject it
    let mut container: Container<TagFactory, String> =
        Container::new().bind_singleton(GREETER_ID, TagFactory::plain(LOGGER_ID, "hi", &calls));

    assert_eq!(
        container.resolve_mut(GREETER_ID),
        Err(InjectionError::TypeNotBound)
    );
    assert_eq!(calls.load(Ordering::SeqCst), 1);

    // the mismatched product was still cached, so the factory does not run again
    assert_eq!(
        container.resolve_mut(GREETER_ID),
        Err(InjectionError::TypeNotBound)
    );
    assert_eq!(calls.load(Ordering::SeqCst), 1);
}

#[test]
fn build_stops_at_first_failing_factory() {
    let ok_calls = counter();
    let container: Container<TagFactory, String> = Container::new()
        .bind_singleton(DEP_ID, TagFactory::plain(DEP_ID, "dep", &ok_calls))
        .bind_singleton(
            GREETER_ID,
            TagFactory {
                tag: GREETER_ID,
                label: "boom".to_string(),
                counter: counter(),
                dep: None,
                fail: true,
            },
        );

    let result = container.build();
    assert!(matches!(result, Err(InjectionError::TypeNotBound)));
    // the healthy singleton bound before the failing one was still materialized
    assert_eq!(ok_calls.load(Ordering::SeqCst), 1);
}

struct Greeting {
    text: String,
}

impl FromContainer<TagFactory, String> for Greeting {
    fn from_container(
        container: &mut Container<TagFactory, String>,
    ) -> Result<Self, InjectionError> {
        let text = container.resolve_mut(GREETER_ID)?;
        Ok(Greeting {
            text: text.as_str().to_string(),
        })
    }
}

#[test]
fn from_container_assembles_consumer() {
    let calls = counter();
    let mut container: Container<TagFactory, String> =
        Container::new().bind_singleton(GREETER_ID, TagFactory::plain(GREETER_ID, "hello", &calls));

    let greeting = Greeting::from_container(&mut container).unwrap();
    assert_eq!(greeting.text, "hello");
}

#[test]
fn wrap_injectable_carries_tag_and_value() {
    let inst: Instance<String> = wrap_injectable(GREETER_ID, "payload".to_string());
    assert_eq!(inst.tag, GREETER_ID);
    assert_eq!(inst.value.as_str(), "payload");
}
