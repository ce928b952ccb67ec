use yrice::loader::{contains_str, resolve_modules};
use yrice::module::RawModule;

fn s(x: &str) -> String {
    x.to_string()
}

fn raw(requires: &[&str], enabled: Option<bool>) -> RawModule {
    RawModule { requires: requires.iter().map(|r| s(r)).collect(), enabled, ..Default::default() }
}

fn names(v: &[&str]) -> Vec<String> {
    v.iter().map(|x| s(x)).collect()
}

#[test]
fn empty_filter_takes_enabled_in_declaration_order() {
    let entries = vec![
        (s("c"), raw(&[], None)),
        (s("a"), raw(&[], Some(true))),
        (s("off"), raw(&[], Some(false))),
        (s("b"), raw(&[], None)),
    ];
    let r = resolve_modules(&entries, &vec![]);
    assert_eq!(r.order, names(&["c", "a", "b"]));
    assert!(r.missing.is_empty());
}

#[test]
fn filter_pulls_in_required_module() {
    let entries = vec![(s("a"), raw(&["b"], None)), (s("b"), raw(&[], None)), (s("c"), raw(&[], None))];
    let r = resolve_modules(&entries, &names(&["a"]));
    assert_eq!(r.order, names(&["b", "a"]));
}

#[test]
fn named_disabled_module_is_not_taken() {
    let entries = vec![(s("a"), raw(&[], Some(false))), (s("b"), raw(&[], None))];
    let r = resolve_modules(&entries, &names(&["a"]));
    assert!(r.order.is_empty());
    let r = resolve_modules(&entries, &names(&["a", "b"]));
    assert_eq!(r.order, names(&["b"]));
}

#[test]
fn required_module_is_placed_once_before_first_requirer() {
    let entries = vec![
        (s("x"), raw(&["lib"], None)),
        (s("y"), raw(&["lib"], None)),
        (s("lib"), raw(&[], None)),
    ];
    let r = resolve_modules(&entries, &vec![]);
    assert_eq!(r.order, names(&["lib", "x", "y"]));
}

#[test]
fn required_disabled_module_is_still_pulled_in() {
    let entries = vec![(s("a"), raw(&["b"], None)), (s("b"), raw(&[], Some(false)))];
    let r = resolve_modules(&entries, &vec![]);
    assert_eq!(r.order, names(&["b", "a"]));
}

#[test]
fn missing_requirement_is_reported_and_skipped() {
    let entries = vec![(s("a"), raw(&["ghost", "b"], None)), (s("b"), raw(&[], None))];
    let r = resolve_modules(&entries, &vec![]);
    assert_eq!(r.order, names(&["b", "a"]));
    assert_eq!(r.missing.len(), 1);
    assert_eq!(r.missing[0].module, "a");
    assert_eq!(r.missing[0].required, "ghost");
}

#[test]
fn requirements_are_expanded_transitively() {
    let entries = vec![
        (s("a"), raw(&["b"], None)),
        (s("b"), raw(&["c"], None)),
        (s("c"), raw(&[], Some(false))),
    ];
    let r = resolve_modules(&entries, &vec![]);
    assert_eq!(r.order, names(&["c", "b", "a"]));
}

#[test]
fn missing_requirement_of_pulled_in_module_is_reported() {
    let entries = vec![(s("a"), raw(&["s"], None)), (s("s"), raw(&["x"], None))];
    let r = resolve_modules(&entries, &vec![]);
    assert_eq!(r.order, names(&["s", "a"]));
    assert_eq!(r.missing.len(), 1);
    assert_eq!(r.missing[0].module, "s");
    assert_eq!(r.missing[0].required, "x");
}

#[test]
fn requirement_cycle_places_each_module_once() {
    let entries = vec![(s("a"), raw(&["b"], None)), (s("b"), raw(&["a"], None))];
    let r = resolve_modules(&entries, &vec![]);
    assert_eq!(r.order, names(&["b", "a"]));
}

#[test]
fn missing_name_leaves_order_unchanged() {
    let with = vec![(s("a"), raw(&["nope", "b"], None)), (s("b"), raw(&[], Some(false)))];
    let without = vec![(s("a"), raw(&["b"], None)), (s("b"), raw(&[], Some(false)))];
    assert_eq!(resolve_modules(&with, &vec![]).order, resolve_modules(&without, &vec![]).order);
}

#[test]
fn self_requirement_places_module_once() {
    let entries = vec![(s("a"), raw(&["a", "a"], None))];
    let r = resolve_modules(&entries, &vec![]);
    assert_eq!(r.order, names(&["a"]));
}

#[test]
fn no_modules_gives_empty_order() {
    let r = resolve_modules(&vec![], &names(&["a"]));
    assert!(r.order.is_empty());
    assert!(r.missing.is_empty());
}

#[test]
fn contains_str_compares_text() {
    assert!(contains_str(&names(&["a", "bc"]), &s("bc")));
    assert!(!contains_str(&names(&["a", "bc"]), &s("b")));
}

#[test]
fn missing_requirement_keeps_declaration_order() {
    let with = vec![(s("x"), raw(&["R"], None)), (s("y"), raw(&[], None))];
    let without = vec![(s("x"), raw(&[], None)), (s("y"), raw(&[], None))];
    assert_eq!(resolve_modules(&with, &vec![]).order, names(&["x", "y"]));
    assert_eq!(resolve_modules(&without, &vec![]).order, names(&["x", "y"]));
}
