use service_flow::catalog::{find, find_group, flatten};
use service_flow::config::{
    Config, DependencyConfig, DependencyType, Service, ServiceGroup, Settings,
};
use service_flow::cycles::check_dependencies;
use service_flow::orchestrator::OrchestratorError;
use service_flow::waves::plan_waves;

fn service(id: &str, auto_start: bool, deps: &[&str]) -> Service {
    Service {
        id: id.to_string(),
        name: id.to_string(),
        description: None,
        kind: None,
        group_id: String::new(),
        path: String::new(),
        work_dir: None,
        args: None,
        env: None,
        auto_start,
        startup_delay: 0,
        dependencies: deps.iter().map(|d| d.to_string()).collect(),
        dependency_configs: None,
        retry_config: None,
        timeout_config: None,
        log_config: None,
        resource_limits: None,
        process_config: None,
        health_check: None,
        metrics: None,
        pid: None,
        started_at: None,
        exit_code: None,
        exit_signal: None,
        crash_count: None,
        last_crash_time: None,
    }
}

fn typed(id: &str, deps: &[(&str, DependencyType)]) -> Service {
    let mut s = service(id, true, &[]);
    s.dependency_configs = Some(
        deps.iter()
            .map(|(target, kind)| DependencyConfig {
                service_id: target.to_string(),
                kind: *kind,
                timeout: None,
                health_check_required: None,
            })
            .collect(),
    );
    s
}

fn config(groups: Vec<Vec<Service>>) -> Config {
    Config {
        settings: Settings { server_port: 1, auto_start: false, theme: String::new() },
        groups: groups
            .into_iter()
            .enumerate()
            .map(|(i, services)| ServiceGroup {
                id: format!("g{}", i),
                name: String::new(),
                description: None,
                startup_delay: 0,
                application_id: None,
                services,
                order: 0,
                dependencies: Vec::new(),
                startup_strategy: None,
            })
            .collect(),
        applications: Vec::new(),
    }
}

#[test]
fn acyclic_closed_dependencies_pass() {
    let cfg = config(vec![
        vec![service("a", true, &["b", "c"]), service("b", true, &["c"])],
        vec![service("c", true, &[]), service("d", false, &["a", "c"])],
    ]);
    assert_eq!(check_dependencies(&cfg), Ok(()));
    assert_eq!(check_dependencies(&config(vec![])), Ok(()));
}

#[test]
fn self_dependency_is_circular() {
    let cfg = config(vec![vec![service("a", true, &["a"])]]);
    assert_eq!(check_dependencies(&cfg), Err(OrchestratorError::CircularDependency));
}

#[test]
fn long_cycle_across_groups_is_circular() {
    let cfg = config(vec![
        vec![service("root", true, &["a"]), service("a", true, &["b"])],
        vec![service("b", true, &["c"])],
        vec![service("c", true, &["a"])],
    ]);
    assert_eq!(check_dependencies(&cfg), Err(OrchestratorError::CircularDependency));
}

#[test]
fn diamond_is_not_a_cycle() {
    let cfg = config(vec![vec![
        service("top", true, &["l", "r"]),
        service("l", true, &["bottom"]),
        service("r", true, &["bottom"]),
        service("bottom", true, &[]),
    ]]);
    assert_eq!(check_dependencies(&cfg), Ok(()));
}

#[test]
fn dependency_that_names_nothing_is_reported() {
    let cfg = config(vec![vec![service("a", true, &["b"]), service("b", true, &["nope"])]]);
    assert_eq!(
        check_dependencies(&cfg),
        Err(OrchestratorError::TaskNotFound("nope".to_string()))
    );
}

#[test]
fn typed_dependencies_are_not_checked() {
    let cfg = config(vec![vec![
        typed("x", &[("y", DependencyType::Required)]),
        typed("y", &[("x", DependencyType::Required)]),
    ]]);
    assert_eq!(check_dependencies(&cfg), Ok(()));
}

#[test]
fn lookup_takes_the_first_match_in_snapshot_order() {
    let cfg = config(vec![
        vec![service("a", true, &[]), service("b", true, &[])],
        vec![service("b", false, &[]), service("c", true, &[])],
    ]);
    let nodes = flatten(&cfg);
    assert_eq!(nodes.len(), 4);
    assert_eq!(find(&nodes, "a"), Some(0));
    assert_eq!(find(&nodes, "b"), Some(1));
    assert_eq!(find(&nodes, "c"), Some(3));
    assert_eq!(find(&nodes, "d"), None);
    assert_eq!(find_group(&cfg.groups, "g1"), Some(1));
    assert_eq!(find_group(&cfg.groups, "g9"), None);
}

#[test]
fn waves_follow_required_dependencies() {
    let services = vec![
        typed("web", &[("api", DependencyType::Required), ("cache", DependencyType::Optional)]),
        typed("api", &[("db", DependencyType::Required)]),
        service("db", true, &[]),
        service("cache", true, &["db"]),
    ];
    let plan = plan_waves(&services);
    assert_eq!(plan.order, vec![2, 3, 1, 0]);
    assert!(!plan.stuck);
}

#[test]
fn a_later_service_can_join_the_same_sweep() {
    let services = vec![
        service("a", true, &[]),
        service("b", true, &["a"]),
        service("c", true, &["b"]),
    ];
    let plan = plan_waves(&services);
    assert_eq!(plan.order, vec![0, 1, 2]);
    assert!(!plan.stuck);
}

#[test]
fn services_not_marked_for_automatic_start_take_no_part() {
    let services = vec![
        service("a", true, &["manual"]),
        service("manual", false, &[]),
        service("b", true, &[]),
    ];
    let plan = plan_waves(&services);
    assert_eq!(plan.order, vec![2]);
    assert!(plan.stuck);
}

#[test]
fn required_cycle_makes_the_plan_stuck_after_the_rest() {
    let services = vec![
        typed("x", &[("y", DependencyType::Required)]),
        service("free", true, &[]),
        typed("y", &[("x", DependencyType::Required)]),
        typed("after", &[("free", DependencyType::Required)]),
        typed("behind", &[("x", DependencyType::Required)]),
    ];
    let plan = plan_waves(&services);
    assert_eq!(plan.order, vec![1, 3]);
    assert!(plan.stuck);
}

#[test]
fn conflict_and_optional_edges_do_not_hold_a_service_back() {
    let services = vec![
        typed("x", &[("y", DependencyType::Conflict), ("z", DependencyType::Optional)]),
        typed("y", &[("x", DependencyType::Optional)]),
    ];
    let plan = plan_waves(&services);
    assert_eq!(plan.order, vec![0, 1]);
    assert!(!plan.stuck);
    let empty = plan_waves(&Vec::new());
    assert!(empty.order.is_empty());
    assert!(!empty.stuck);
}

#[test]
fn the_walk_reports_what_it_meets_first() {
    let cycle_first = config(vec![vec![
        service("a", true, &["b"]),
        service("b", true, &["a", "nope"]),
    ]]);
    assert_eq!(
        check_dependencies(&cycle_first),
        Err(OrchestratorError::CircularDependency)
    );
    let missing_first = config(vec![vec![
        service("a", true, &["b"]),
        service("b", true, &["nope", "a"]),
    ]]);
    assert_eq!(
        check_dependencies(&missing_first),
        Err(OrchestratorError::TaskNotFound("nope".to_string()))
    );
}

#[test]
fn a_later_service_of_the_same_id_does_not_count() {
    let cfg = config(vec![vec![
        service("a", true, &[]),
        service("a", true, &["a", "nope"]),
    ]]);
    assert_eq!(check_dependencies(&cfg), Ok(()));
}
