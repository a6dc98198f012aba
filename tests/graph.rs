use staterun::{
    ApplyStatus, Condition, Executor, Failing, Fixed, Graph, GraphError, Os, OsType, PrintAndApplyRandomly,
    State, StatusCondition, Target,
};

fn ubuntu() -> Target {
    Target::new("foobar", Os::new(OsType::Linux, "ubuntu", "16.04"))
}

fn journal(ex: &Executor) -> Vec<String> {
    (0..ex.len()).map(|i| ex.entry(i).to_string()).collect()
}

#[test]
fn test() {
    let mut g = Graph::new("install me");
    let me_package = g.add(PrintAndApplyRandomly("install me package"));
    let me_service = g.add(PrintAndApplyRandomly("install me service"));
    let me_user = g.add(PrintAndApplyRandomly("create me user"));
    let me_group = g.add(PrintAndApplyRandomly("create me group"));

    g.depends_on(me_service, me_package).unwrap();
    g.depends_on(me_service, me_user).unwrap();
    g.depends_on(me_service, me_group).unwrap();

    g.depends_on(me_package, me_user).unwrap();
    g.depends_on(me_user, me_group).unwrap();

    g.apply(&mut Executor::new(), &ubuntu()).unwrap();
}

#[test]
fn diamond_applies_each_node_once_in_order() {
    let mut g = Graph::new("install me");
    let package = g.add(Fixed::new("package", ApplyStatus::Changed));
    let service = g.add(Fixed::new("service", ApplyStatus::Changed));
    let user = g.add(Fixed::new("user", ApplyStatus::Changed));
    let group = g.add(Fixed::new("group", ApplyStatus::Changed));

    g.depends_on(service, package).unwrap();
    g.depends_on(service, user).unwrap();
    g.depends_on(service, group).unwrap();
    g.depends_on(package, user).unwrap();
    g.depends_on(user, group).unwrap();

    let mut ex = Executor::new();
    assert_eq!(g.apply(&mut ex, &ubuntu()).unwrap(), ApplyStatus::Changed);
    assert_eq!(
        journal(&ex),
        vec!["group".to_string(), "user".to_string(), "package".to_string(), "service".to_string()]
    );
    assert_eq!(g.name(), "install me");
}

#[test]
fn cycle_is_rejected_and_graph_unchanged() {
    let mut g = Graph::new("cycle");
    let a = g.add(Fixed::new("A", ApplyStatus::Changed));
    let b = g.add(Fixed::new("B", ApplyStatus::Changed));
    let c = g.add(Fixed::new("C", ApplyStatus::Changed));
    assert_eq!(g.depends_on(a, b), Ok(a));
    assert_eq!(g.depends_on(b, c), Ok(b));
    let err = g.depends_on(c, a).unwrap_err();
    assert_eq!(err, GraphError::CyclicDependency);
    assert_eq!(err.to_string(), "Found cyclic dependency!");
    // C still depends on nothing, so it is the one root and leads to B, then A.
    let mut ex = Executor::new();
    g.apply(&mut ex, &ubuntu()).unwrap();
    assert_eq!(journal(&ex), vec!["C".to_string(), "B".to_string(), "A".to_string()]);
}

#[test]
fn self_dependency_is_rejected() {
    let mut g = Graph::new("self");
    let a = g.add(Fixed::new("A", ApplyStatus::Changed));
    assert_eq!(g.depends_on(a, a), Err(GraphError::CyclicDependency));
}

#[test]
fn depender_is_no_longer_a_root() {
    let mut g = Graph::new("roots");
    let a = g.add(Fixed::new("A", ApplyStatus::Changed));
    let b = g.add(Fixed::new("B", ApplyStatus::Changed));
    g.add_dependency(a, b, Condition::Never, StatusCondition::Always).unwrap();
    let mut ex = Executor::new();
    assert_eq!(g.apply(&mut ex, &ubuntu()).unwrap(), ApplyStatus::Changed);
    assert_eq!(journal(&ex), vec!["B".to_string()]);
}

#[test]
fn change_gated_edge_needs_a_change() {
    let mut g = Graph::new("gated");
    let config = g.add(Fixed::new("config", ApplyStatus::NotChanged));
    let restart = g.add(Fixed::new("restart", ApplyStatus::Changed));
    assert_eq!(g.apply_if_changed(restart, config), Ok(restart));
    let mut ex = Executor::new();
    assert_eq!(g.apply(&mut ex, &ubuntu()).unwrap(), ApplyStatus::NotChanged);
    assert_eq!(journal(&ex), vec!["config".to_string()]);
}

#[test]
fn change_gated_edge_follows_a_change() {
    let mut g = Graph::new("gated");
    let config = g.add(Fixed::new("config", ApplyStatus::Changed));
    let restart = g.add(Fixed::new("restart", ApplyStatus::NotChanged));
    g.apply_if_changed(restart, config).unwrap();
    let mut ex = Executor::new();
    assert_eq!(g.apply(&mut ex, &ubuntu()).unwrap(), ApplyStatus::Changed);
    assert_eq!(journal(&ex), vec!["config".to_string(), "restart".to_string()]);
}

#[test]
fn pre_condition_on_target_gates_the_depender() {
    let mut g = Graph::new("pre");
    let base = g.add(Fixed::new("base", ApplyStatus::Changed));
    let mac = g.add(Fixed::new("mac", ApplyStatus::Changed));
    let linux = g.add(Fixed::new("linux", ApplyStatus::Changed));
    g.add_dependency(mac, base, Condition::Os(OsType::MacOs), StatusCondition::Always).unwrap();
    g.add_dependency(linux, base, Condition::Os(OsType::Linux), StatusCondition::Always).unwrap();
    let mut ex = Executor::new();
    g.apply(&mut ex, &ubuntu()).unwrap();
    assert_eq!(journal(&ex), vec!["base".to_string(), "linux".to_string()]);
}

#[test]
fn graph_applies_every_root_in_order() {
    let mut g: Graph<Fixed> = Graph::new("roots");
    g.add(Fixed::new("A", ApplyStatus::NotChanged));
    g.add(Fixed::new("B", ApplyStatus::NotChanged));
    let mut ex = Executor::new();
    assert_eq!(g.apply(&mut ex, &ubuntu()).unwrap(), ApplyStatus::NotChanged);
    assert_eq!(journal(&ex), vec!["A".to_string(), "B".to_string()]);
}

#[test]
fn random_leaves_are_all_applied_once() {
    let mut g = Graph::new("install me");
    let package = g.add(PrintAndApplyRandomly("install me package"));
    let service = g.add(PrintAndApplyRandomly("install me service"));
    let user = g.add(PrintAndApplyRandomly("create me user"));
    let group = g.add(PrintAndApplyRandomly("create me group"));
    g.depends_on(service, package).unwrap();
    g.depends_on(service, user).unwrap();
    g.depends_on(service, group).unwrap();
    g.depends_on(package, user).unwrap();
    g.depends_on(user, group).unwrap();
    let mut ex = Executor::new();
    g.apply(&mut ex, &ubuntu()).unwrap();
    assert_eq!(
        journal(&ex),
        vec![
            "create me group".to_string(),
            "create me user".to_string(),
            "install me package".to_string(),
            "install me service".to_string()
        ]
    );
}

#[test]
fn graph_stops_at_first_failing_root() {
    let mut g = Graph::new("failing");
    g.add(Failing::new("A"));
    g.add(Failing::new("B"));
    let mut ex = Executor::new();
    assert_eq!(g.apply(&mut ex, &ubuntu()).unwrap_err().message(), "A");
    assert_eq!(journal(&ex), vec!["A".to_string()]);
}
