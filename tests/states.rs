use staterun::{
    ApplyStatus, ComposedState, CondState, Condition, DependOnState, Executor, Failing, Fixed,
    GraphState, GraphStateBuilder, IfChangedState, Os, OsType, State, StateExt, Target, NOOP,
};

fn ubuntu() -> Target {
    Target::new("foobar", Os::new(OsType::Linux, "ubuntu", "16.04"))
}

fn journal(ex: &Executor) -> Vec<String> {
    (0..ex.len()).map(|i| ex.entry(i).to_string()).collect()
}

#[test]
fn it_works() {
    let _target = Target::new("foobar", Os::from((OsType::Linux, "ubuntu", "16.04")));
    let _executor = Executor::new();

    let composed = NOOP("state1").compose(NOOP("state2"));

    let onlyif = NOOP("state3").only_if(Condition::Version("16.04".to_string()));

    let _superset = composed.compose(onlyif);
}

#[test]
fn combine_is_or() {
    let changed = ApplyStatus::Changed;
    let not_changed = ApplyStatus::NotChanged;
    assert_eq!(not_changed.add(not_changed), not_changed);
    assert_eq!(not_changed.add(changed), changed);
    assert_eq!(changed.add(not_changed), changed);
    assert_eq!(changed.add(changed), changed);
    for a in [changed, not_changed] {
        for b in [changed, not_changed] {
            assert_eq!(a.add(b), b.add(a));
            for c in [changed, not_changed] {
                assert_eq!(a.add(b).add(c), a.add(b.add(c)));
            }
        }
    }
}

#[test]
fn compose_runs_left_then_right() {
    let t = ubuntu();
    let mut ex = Executor::new();
    let s = Fixed::new("A", ApplyStatus::Changed).compose(Fixed::new("B", ApplyStatus::NotChanged));
    assert_eq!(s.apply(&mut ex, &t).unwrap(), ApplyStatus::Changed);
    assert_eq!(journal(&ex), vec!["A".to_string(), "B".to_string()]);
    assert_eq!(s.name(), "A + B");
}

#[test]
fn compose_of_unchanged_is_unchanged() {
    let t = ubuntu();
    let mut ex = Executor::new();
    let s = ComposedState::new(
        Fixed::new("A", ApplyStatus::NotChanged),
        Fixed::new("B", ApplyStatus::NotChanged),
    );
    assert_eq!(s.apply(&mut ex, &t).unwrap(), ApplyStatus::NotChanged);
}

#[test]
fn compose_runs_both_sides_on_failure() {
    let t = ubuntu();
    let mut ex = Executor::new();
    let s = Failing::new("left").compose(Failing::new("right"));
    let err = s.apply(&mut ex, &t).unwrap_err();
    assert_eq!(err.message(), "left");
    assert_eq!(err.to_string(), "Error executing left");
    assert_eq!(journal(&ex), vec!["left".to_string(), "right".to_string()]);
}

#[test]
fn only_if_false_skips_inner() {
    let t = ubuntu();
    let mut ex = Executor::new();
    let s = Fixed::new("inner", ApplyStatus::Changed).only_if(Condition::Os(OsType::Windows));
    assert_eq!(s.apply(&mut ex, &t).unwrap(), ApplyStatus::NotChanged);
    assert_eq!(ex.len(), 0);
}

#[test]
fn only_if_true_applies_inner() {
    let t = ubuntu();
    let mut ex = Executor::new();
    let s = Fixed::new("inner", ApplyStatus::Changed).only_if(Condition::Vendor("ubuntu".to_string()));
    assert_eq!(s.apply(&mut ex, &t).unwrap(), ApplyStatus::Changed);
    assert_eq!(journal(&ex), vec!["inner".to_string()]);
    assert_eq!(s.name(), "inner");
}

#[test]
fn if_changed_runs_on_change() {
    let t = ubuntu();
    let mut ex = Executor::new();
    let dep = Fixed::new("config", ApplyStatus::Changed);
    let s = IfChangedState::new(Fixed::new("restart", ApplyStatus::NotChanged), &dep);
    assert_eq!(s.apply(&mut ex, &t).unwrap(), ApplyStatus::NotChanged);
    assert_eq!(journal(&ex), vec!["config".to_string(), "restart".to_string()]);
}

#[test]
fn if_changed_skips_without_change() {
    let t = ubuntu();
    let mut ex = Executor::new();
    let dep = Fixed::new("config", ApplyStatus::NotChanged);
    let s = IfChangedState::new(Fixed::new("restart", ApplyStatus::Changed), &dep);
    assert_eq!(s.apply(&mut ex, &t).unwrap(), ApplyStatus::NotChanged);
    assert_eq!(journal(&ex), vec!["config".to_string()]);
    assert_eq!(s.name(), "restart");
}

#[test]
fn if_changed_stops_on_dependency_error() {
    let t = ubuntu();
    let mut ex = Executor::new();
    let dep = Failing::new("config");
    let s = IfChangedState::new(Fixed::new("restart", ApplyStatus::Changed), &dep);
    assert_eq!(s.apply(&mut ex, &t).unwrap_err().message(), "config");
    assert_eq!(journal(&ex), vec!["config".to_string()]);
}

#[test]
fn depends_on_keeps_own_status() {
    let t = ubuntu();
    let mut ex = Executor::new();
    let dep = Fixed::new("package", ApplyStatus::Changed);
    let s = DependOnState::new(Fixed::new("service", ApplyStatus::NotChanged), &dep);
    assert_eq!(s.apply(&mut ex, &t).unwrap(), ApplyStatus::NotChanged);
    assert_eq!(journal(&ex), vec!["package".to_string(), "service".to_string()]);
    assert_eq!(s.name(), "service");
}

#[test]
fn cond_applies_every_match() {
    let t = ubuntu();
    let mut ex = Executor::new();
    let s = CondState::new()
        .apply_if(Fixed::new("a", ApplyStatus::NotChanged), Condition::Os(OsType::Linux))
        .apply_if(Fixed::new("b", ApplyStatus::Changed), Condition::Os(OsType::MacOs))
        .apply_if(Fixed::new("c", ApplyStatus::Changed), Condition::Hostname("foobar".to_string()))
        .not_applied(Fixed::new("fallback", ApplyStatus::Changed));
    assert_eq!(s.apply(&mut ex, &t).unwrap(), ApplyStatus::Changed);
    assert_eq!(journal(&ex), vec!["a".to_string(), "c".to_string()]);
    assert_eq!(s.name(), "a / b / c /  - fallback");
}

#[test]
fn cond_falls_back_when_nothing_matches() {
    let t = ubuntu();
    let mut ex = Executor::new();
    let s = CondState::new()
        .apply_if(Fixed::new("a", ApplyStatus::Changed), Condition::Never)
        .not_applied(Fixed::new("fallback", ApplyStatus::NotChanged));
    assert_eq!(s.apply(&mut ex, &t).unwrap(), ApplyStatus::NotChanged);
    assert_eq!(journal(&ex), vec!["fallback".to_string()]);
}

#[test]
fn cond_without_match_or_fallback() {
    let t = ubuntu();
    let mut ex = Executor::new();
    let s = CondState::new().apply_if(Fixed::new("a", ApplyStatus::Changed), Condition::Os(OsType::FreeBSD));
    assert_eq!(s.apply(&mut ex, &t).unwrap(), ApplyStatus::NotChanged);
    assert_eq!(ex.len(), 0);
    assert_eq!(s.name(), "a / ");
}

#[test]
fn cond_stops_at_first_error() {
    let t = ubuntu();
    let mut ex = Executor::new();
    let s = CondState::new()
        .apply_if(Failing::new("a"), Condition::Always)
        .apply_if(Failing::new("b"), Condition::Always);
    assert_eq!(s.apply(&mut ex, &t).unwrap_err().message(), "a");
    assert_eq!(journal(&ex), vec!["a".to_string()]);
}

#[test]
fn conditions_read_target_facts() {
    let t = ubuntu();
    let c = Condition::All(
        Box::new(Condition::Version("16.04".to_string())),
        Box::new(Condition::Not(Box::new(Condition::Hostname("other".to_string())))),
    );
    assert!(c.check(&t));
    let d = Condition::Any(Box::new(Condition::Never), Box::new(Condition::Vendor("debian".to_string())));
    assert!(!d.check(&t));
    assert_eq!(t.hostname(), "foobar");
    assert_eq!(t.os().vendor(), "ubuntu");
    assert_eq!(t.os().version(), "16.04");
    assert!(matches!(t.os().os_type(), OsType::Linux));
}

#[test]
fn graph_state_runs_dependencies_then_body() {
    let t = ubuntu();
    let mut ex = Executor::new();
    let dep = Fixed::new("dep", ApplyStatus::NotChanged);
    let mut g: GraphState<Fixed, Fixed> = GraphState::new("group", || {
        vec![Fixed::new("x", ApplyStatus::NotChanged), Fixed::new("y", ApplyStatus::Changed)]
    });
    g.depends_on(&dep);
    assert_eq!(g.apply(&mut ex, &t).unwrap(), ApplyStatus::Changed);
    assert_eq!(journal(&ex), vec!["dep".to_string(), "x".to_string(), "y".to_string()]);
    assert_eq!(g.name(), "group");
}

#[test]
fn graph_state_gated_by_unchanged() {
    let t = ubuntu();
    let mut ex = Executor::new();
    let gate = Fixed::new("gate", ApplyStatus::NotChanged);
    let mut g: GraphState<Fixed, Fixed> = GraphState::wrapping(Fixed::new("body", ApplyStatus::Changed));
    g.if_changed(&gate);
    assert_eq!(g.apply(&mut ex, &t).unwrap(), ApplyStatus::NotChanged);
    assert_eq!(journal(&ex), vec!["gate".to_string()]);
    assert_eq!(g.name(), "body");
}

#[test]
fn graph_state_builder_wraps() {
    let t = ubuntu();
    let mut ex = Executor::new();
    let mut b: GraphStateBuilder<Fixed, Fixed> = GraphStateBuilder::new();
    let s = b.add(Fixed::new("one", ApplyStatus::Changed));
    assert_eq!(s.name(), "one");
    assert_eq!(s.apply(&mut ex, &t).unwrap(), ApplyStatus::Changed);
    assert_eq!(b.states.len(), 1);
}
