use custom_properties::cascade::{cascade, BorrowedValue, DeclaredValue};
use custom_properties::scan::parse_str;
use custom_properties::subst::finish_cascade;
use custom_properties::table::{NameSet, NameTable};
use std::sync::Arc;

type Baseline = Option<Arc<NameTable<String>>>;

fn declare(
    map: &mut Option<NameTable<BorrowedValue>>,
    inherited: &Baseline,
    seen: &mut NameSet,
    name: &str,
    value: DeclaredValue,
) {
    cascade(map, inherited, seen, &name.to_string(), value);
}

fn explicit(css: &str) -> DeclaredValue {
    DeclaredValue::Value(parse_str(css).expect("value should scan"))
}

/// Runs one cascade pass over the given (name, declared value) pairs, in
/// priority order, and finishes it into a new baseline.
fn run_pass(decls: Vec<(&str, DeclaredValue)>, inherited: &Baseline) -> Baseline {
    let mut map: Option<NameTable<BorrowedValue>> = None;
    let mut seen = NameSet::new();
    for (name, value) in decls {
        declare(&mut map, inherited, &mut seen, name, value);
    }
    finish_cascade(map, inherited)
}

fn resolved(baseline: &Baseline, name: &str) -> Option<String> {
    baseline
        .as_ref()
        .and_then(|t| t.get(&name.to_string()))
        .cloned()
}

#[test]
fn simple_value_resolves_to_itself() {
    let out = run_pass(vec![("a", explicit("1px"))], &None);
    assert_eq!(resolved(&out, "a"), Some("1px".to_string()));
}

#[test]
fn first_declaration_of_a_name_wins() {
    let out = run_pass(
        vec![("x", explicit("1px")), ("x", explicit("2px"))],
        &None,
    );
    assert_eq!(resolved(&out, "x"), Some("1px".to_string()));
}

#[test]
fn initial_removes_inherited_entry() {
    let parent = run_pass(vec![("x", explicit("blue")), ("y", explicit("red"))], &None);
    assert_eq!(resolved(&parent, "x"), Some("blue".to_string()));
    let child = run_pass(vec![("x", DeclaredValue::Initial)], &parent);
    assert_eq!(resolved(&child, "x"), None);
    assert_eq!(resolved(&child, "y"), Some("red".to_string()));
}

#[test]
fn inherit_keeps_the_inherited_entry() {
    let parent = run_pass(vec![("x", explicit("blue"))], &None);
    let child = run_pass(vec![("x", DeclaredValue::Inherit)], &parent);
    assert_eq!(resolved(&child, "x"), Some("blue".to_string()));
}

#[test]
fn empty_pass_shares_the_parent_baseline_instance() {
    let parent = run_pass(vec![("x", explicit("blue"))], &None);
    let child = run_pass(vec![], &parent);
    let parent_arc = parent.as_ref().expect("parent baseline");
    let child_arc = child.as_ref().expect("child baseline");
    assert!(Arc::ptr_eq(parent_arc, child_arc));
}

#[test]
fn substitution_uses_inherited_values() {
    let parent = run_pass(vec![("p", explicit("blue"))], &None);
    let child = run_pass(vec![("q", explicit("var(--p)"))], &parent);
    assert_eq!(resolved(&child, "q"), Some("blue".to_string()));
}

#[test]
fn self_reference_resolves_to_absent() {
    let out = run_pass(vec![("a", explicit("var(--a)"))], &None);
    assert_eq!(resolved(&out, "a"), None);
}

#[test]
fn mutual_cycle_invalidates_both_and_fallback_does_not_save_a_user() {
    let out = run_pass(
        vec![
            ("a", explicit("var(--b)")),
            ("b", explicit("var(--a)")),
            ("c", explicit("var(--a, 10px)")),
        ],
        &None,
    );
    assert_eq!(resolved(&out, "a"), None);
    assert_eq!(resolved(&out, "b"), None);
    // `--a` is present but invalid, which is a harder failure than absence:
    // the fallback must not apply, so `--c` fails as well.
    assert_eq!(resolved(&out, "c"), None);
}

#[test]
fn undeclared_with_fallback_uses_the_fallback() {
    let out = run_pass(vec![("d", explicit("var(--undeclared, blue)"))], &None);
    assert_eq!(resolved(&out, "d"), Some("blue".to_string()));
}

#[test]
fn undeclared_without_fallback_resolves_to_absent() {
    let out = run_pass(vec![("e", explicit("var(--undeclared)"))], &None);
    assert_eq!(resolved(&out, "e"), None);
}

#[test]
fn diamond_dependency_resolves_each_use() {
    let out = run_pass(
        vec![("x", explicit("var(--y) var(--y)")), ("y", explicit("1px"))],
        &None,
    );
    assert_eq!(resolved(&out, "x"), Some("1px 1px".to_string()));
    assert_eq!(resolved(&out, "y"), Some("1px".to_string()));
}

#[test]
fn nested_brackets_are_preserved_around_substitution() {
    let out = run_pass(
        vec![("f", explicit("calc(var(--g) + 1px)")), ("g", explicit("2px"))],
        &None,
    );
    assert_eq!(resolved(&out, "f"), Some("calc(2px + 1px)".to_string()));
}

#[test]
fn fallback_of_a_found_reference_is_discarded() {
    let out = run_pass(
        vec![("a", explicit("var(--b, red)")), ("b", explicit("green"))],
        &None,
    );
    assert_eq!(resolved(&out, "a"), Some("green".to_string()));
}

#[test]
fn fallback_itself_is_substituted() {
    let out = run_pass(
        vec![
            ("a", explicit("var(--none, calc(var(--b) * 2))")),
            ("b", explicit("3px")),
        ],
        &None,
    );
    assert_eq!(resolved(&out, "a"), Some("calc(3px * 2)".to_string()));
}

#[test]
fn chain_of_references_resolves_through() {
    let out = run_pass(
        vec![
            ("a", explicit("var(--b)")),
            ("b", explicit("var(--c)")),
            ("c", explicit("7em")),
        ],
        &None,
    );
    assert_eq!(resolved(&out, "a"), Some("7em".to_string()));
}

#[test]
fn failure_is_local_to_the_depending_property() {
    let out = run_pass(
        vec![
            ("bad", explicit("var(--missing)")),
            ("good", explicit("4px")),
        ],
        &None,
    );
    assert_eq!(resolved(&out, "bad"), None);
    assert_eq!(resolved(&out, "good"), Some("4px".to_string()));
}

#[test]
fn later_reset_of_a_seen_name_is_ignored() {
    let out = run_pass(
        vec![("x", explicit("1px")), ("x", DeclaredValue::Initial)],
        &None,
    );
    assert_eq!(resolved(&out, "x"), Some("1px".to_string()));
}

#[test]
fn depending_on_a_cyclic_name_fails_too() {
    let out = run_pass(
        vec![("a", explicit("var(--a)")), ("d", explicit("var(--a)"))],
        &None,
    );
    assert_eq!(resolved(&out, "a"), None);
    assert_eq!(resolved(&out, "d"), None);
}

#[test]
fn blanks_around_a_substituted_call_are_kept() {
    let out = run_pass(
        vec![("x", explicit("1px")), ("y", explicit(" var(--x) "))],
        &None,
    );
    assert_eq!(resolved(&out, "y"), Some(" 1px ".to_string()));
}

#[test]
fn three_level_inheritance_resolves_at_each_level() {
    let a = run_pass(vec![("x", explicit("1px"))], &None);
    let b = run_pass(vec![("y", explicit("var(--x)"))], &a);
    let c = run_pass(vec![("z", explicit("var(--y)"))], &b);
    assert_eq!(resolved(&c, "x"), Some("1px".to_string()));
    assert_eq!(resolved(&c, "y"), Some("1px".to_string()));
    assert_eq!(resolved(&c, "z"), Some("1px".to_string()));
}

#[test]
fn bracketed_fallback_of_a_found_reference_is_discarded() {
    let out = run_pass(
        vec![("a", explicit("var(--b, calc( (8px) ))")), ("b", explicit("2px"))],
        &None,
    );
    assert_eq!(resolved(&out, "a"), Some("2px".to_string()));
}

#[test]
fn several_calls_in_one_value_keep_the_literal_text_between() {
    let out = run_pass(
        vec![
            ("x", explicit("var(--a) / var(--b)")),
            ("a", explicit("1px")),
            ("b", explicit("2px")),
        ],
        &None,
    );
    assert_eq!(resolved(&out, "x"), Some("1px / 2px".to_string()));
}
