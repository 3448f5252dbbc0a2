use alfred::hook::{dispatch_hook, register_hook, unregister_hook, HookId, HookRegistry};
use std::cell::RefCell;
use std::rc::Rc;

type Cb = Box<dyn Fn(&[String]) -> Vec<String>>;

fn cb(f: impl Fn(&[String]) -> Vec<String> + 'static) -> Rc<Cb> {
    Rc::new(Box::new(f))
}


// -----------------------------------------------------------------------
// Acceptance test: register a hook, dispatch it, verify callback behavior
// -----------------------------------------------------------------------

#[test]
fn given_hook_registry_when_callback_registered_and_dispatched_then_callback_called_with_args_and_returns_values(
) {
    // Given: an empty HookRegistry
    let mut registry = HookRegistry::<Cb>::new();

    // And: a callback that receives args and returns transformed values
    let callback = cb(|args: &[String]| -> Vec<String> {
        args.iter().map(|a| format!("processed:{a}")).collect()
    });

    // When: the callback is registered for "render-gutter-hook"
    let hook_id = register_hook(&mut registry, "render-gutter-hook", callback);

    // Then: dispatching the hook with arguments returns the callback's results
    let args = vec!["line1".to_string(), "line2".to_string()];
    let results = dispatch_hook(&registry, "render-gutter-hook", &args);

    assert_eq!(
        results.len(),
        1,
        "one callback registered, one result expected"
    );
    assert_eq!(
        results[0],
        vec!["processed:line1".to_string(), "processed:line2".to_string()]
    );

    // And: the returned HookId is valid (can be used for unregistration)
    assert_eq!(hook_id, HookId(0));
}

// -----------------------------------------------------------------------
// Unit tests: HookRegistry behaviors
// Test Budget: 5 behaviors x 2 = 10 max
// -----------------------------------------------------------------------

#[test]
fn given_multiple_callbacks_when_dispatched_then_returns_all_results_in_registration_order() {
    let mut registry = HookRegistry::<Cb>::new();

    let cb1 = cb(|_args: &[String]| -> Vec<String> { vec!["from_cb1".to_string()] });
    let cb2 = cb(|_args: &[String]| -> Vec<String> { vec!["from_cb2".to_string()] });

    register_hook(&mut registry, "on-save", cb1);
    register_hook(&mut registry, "on-save", cb2);

    let results = dispatch_hook(&registry, "on-save", &[]);
    assert_eq!(results.len(), 2);
    assert_eq!(results[0], vec!["from_cb1".to_string()]);
    assert_eq!(results[1], vec!["from_cb2".to_string()]);
}

#[test]
fn given_unknown_hook_when_dispatched_then_returns_empty() {
    let registry = HookRegistry::<Cb>::new();

    let results = dispatch_hook(&registry, "nonexistent-hook", &["arg".to_string()]);
    assert!(results.is_empty());
}

#[test]
fn given_registered_callback_when_unregistered_by_id_then_dispatch_no_longer_calls_it() {
    let mut registry = HookRegistry::<Cb>::new();

    let call_count = Rc::new(RefCell::new(0));
    let count_clone = call_count.clone();
    let callback = cb(move |_args: &[String]| -> Vec<String> {
        *count_clone.borrow_mut() += 1;
        vec!["called".to_string()]
    });

    let hook_id = register_hook(&mut registry, "on-open", callback);

    // Dispatch once -- callback is called
    dispatch_hook(&registry, "on-open", &[]);
    assert_eq!(*call_count.borrow(), 1);

    // Unregister, then dispatch again -- callback is NOT called
    unregister_hook(&mut registry, "on-open", hook_id);
    let results = dispatch_hook(&registry, "on-open", &[]);
    assert!(results.is_empty());
    assert_eq!(
        *call_count.borrow(),
        1,
        "callback should not be called after unregister"
    );
}

#[test]
fn given_two_callbacks_when_one_unregistered_then_other_still_dispatches() {
    let mut registry = HookRegistry::<Cb>::new();

    let cb1 = cb(|_args: &[String]| -> Vec<String> { vec!["survivor".to_string()] });
    let cb2 = cb(|_args: &[String]| -> Vec<String> { vec!["removed".to_string()] });

    let _id1 = register_hook(&mut registry, "on-close", cb1);
    let id2 = register_hook(&mut registry, "on-close", cb2);

    unregister_hook(&mut registry, "on-close", id2);

    let results = dispatch_hook(&registry, "on-close", &[]);
    assert_eq!(results.len(), 1);
    assert_eq!(results[0], vec!["survivor".to_string()]);
}

#[test]
fn given_callbacks_on_different_hooks_when_dispatched_then_only_matching_hook_callbacks_run() {
    let mut registry = HookRegistry::<Cb>::new();

    let cb_save = cb(|_args: &[String]| -> Vec<String> { vec!["saved".to_string()] });
    let cb_open = cb(|_args: &[String]| -> Vec<String> { vec!["opened".to_string()] });

    register_hook(&mut registry, "on-save", cb_save);
    register_hook(&mut registry, "on-open", cb_open);

    let save_results = dispatch_hook(&registry, "on-save", &[]);
    assert_eq!(save_results.len(), 1);
    assert_eq!(save_results[0], vec!["saved".to_string()]);

    let open_results = dispatch_hook(&registry, "on-open", &[]);
    assert_eq!(open_results.len(), 1);
    assert_eq!(open_results[0], vec!["opened".to_string()]);
}

#[test]
fn given_register_hook_then_each_call_returns_unique_incrementing_id() {
    let mut registry = HookRegistry::<Cb>::new();

    let cb = cb(|_args: &[String]| -> Vec<String> { vec![] });

    let id1 = register_hook(&mut registry, "hook-a", cb.clone());
    let id2 = register_hook(&mut registry, "hook-a", cb.clone());
    let id3 = register_hook(&mut registry, "hook-b", cb);

    assert_eq!(id1, HookId(0));
    assert_eq!(id2, HookId(1));
    assert_eq!(id3, HookId(2));
}

