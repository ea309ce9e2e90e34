use service_flow::config::{
    Config, DependencyConfig, DependencyType, Service, ServiceGroup, Settings, StartupStrategy,
};
use service_flow::orchestrator::{Orchestrator, OrchestratorError};
use service_flow::process::ProcessError;
use service_flow::run::{Action, Event, Run};

fn service(id: &str, deps: &[&str]) -> Service {
    Service {
        id: id.to_string(),
        name: id.to_string(),
        description: None,
        kind: None,
        group_id: String::new(),
        path: format!("/bin/{}", id),
        work_dir: None,
        args: None,
        env: None,
        auto_start: true,
        startup_delay: 0,
        dependencies: deps.iter().map(|d| d.to_string()).collect(),
        dependency_configs: None,
        retry_config: None,
        timeout_config: None,
        log_config: None,
        resource_limits: None,
        process_config: None,
        health_check: None,
        metrics: None,
        pid: None,
        started_at: None,
        exit_code: None,
        exit_signal: None,
        crash_count: None,
        last_crash_time: None,
    }
}

fn typed(id: &str, deps: Vec<(&str, DependencyType, Option<u64>)>) -> Service {
    let mut s = service(id, &[]);
    s.dependency_configs = Some(
        deps.into_iter()
            .map(|(target, kind, timeout)| DependencyConfig {
                service_id: target.to_string(),
                kind,
                timeout,
                health_check_required: None,
            })
            .collect(),
    );
    s
}

fn group(id: &str, strategy: Option<StartupStrategy>, services: Vec<Service>) -> ServiceGroup {
    ServiceGroup {
        id: id.to_string(),
        name: id.to_string(),
        description: None,
        startup_delay: 0,
        application_id: None,
        services,
        order: 0,
        dependencies: Vec::new(),
        startup_strategy: strategy,
    }
}

fn config(groups: Vec<ServiceGroup>) -> Config {
    Config {
        settings: Settings { server_port: 8899, auto_start: false, theme: "system".to_string() },
        groups,
        applications: Vec::new(),
    }
}

/// Plays a run against a world in which `live` services run, every spawn
/// succeeds but those of `broken`, and records what the run asked for.
fn play(mut run: Run<'_>, live: &mut Vec<String>, broken: &[&str]) -> (Vec<String>, Result<(), OrchestratorError>) {
    let mut trace = Vec::new();
    let mut action = run.pending();
    for _ in 0..10_000 {
        let event = match action {
            Action::Probe(id) => {
                trace.push(format!("probe {}", id));
                Event::Alive(live.iter().any(|l| l == id))
            }
            Action::Pause(ms) => {
                trace.push(format!("pause {}", ms));
                Event::Elapsed
            }
            Action::Launch(service) => {
                trace.push(format!("launch {}", service.id));
                if broken.contains(&service.id.as_str()) {
                    Event::Outcome(Err(ProcessError::StartError("no such file".to_string())))
                } else {
                    live.push(service.id.clone());
                    Event::Outcome(Ok(()))
                }
            }
            Action::Halt(id) => {
                trace.push(format!("halt {}", id));
                match live.iter().position(|l| l == id) {
                    Some(at) => {
                        live.remove(at);
                        Event::Outcome(Ok(()))
                    }
                    None => Event::Outcome(Err(ProcessError::NotFound)),
                }
            }
            Action::Relaunch(service) => {
                trace.push(format!("relaunch {}", service.id));
                if !live.iter().any(|l| *l == service.id) {
                    live.push(service.id.clone());
                }
                Event::Outcome(Ok(()))
            }
            Action::Finish(result) => return (trace, result),
        };
        action = run.step(event);
    }
    panic!("the run did not end");
}

fn scenario() -> Config {
    config(vec![group(
        "G",
        None,
        vec![
            service("A", &[]),
            typed("B", vec![("A", DependencyType::Required, Some(100))]),
            typed("C", vec![("B", DependencyType::Conflict, None)]),
        ],
    )])
}

#[test]
fn required_dependency_starts_first_then_waits() {
    let mut orchestrator = Orchestrator::new();
    orchestrator.set_config(scenario());
    let mut live = Vec::new();
    let (trace, result) = play(orchestrator.start_task("B"), &mut live, &[]);
    assert_eq!(result, Ok(()));
    assert_eq!(
        trace,
        vec!["probe B", "probe A", "launch A", "pause 100", "launch B"]
    );
    assert_eq!(live, vec!["A".to_string(), "B".to_string()]);
}

#[test]
fn conflicting_service_blocks_the_start() {
    let mut orchestrator = Orchestrator::new();
    orchestrator.set_config(scenario());
    let mut live = Vec::new();
    let (_, started) = play(orchestrator.start_task("B"), &mut live, &[]);
    assert_eq!(started, Ok(()));
    let (trace, result) = play(orchestrator.start_task("C"), &mut live, &[]);
    assert_eq!(
        result,
        Err(OrchestratorError::ConflictingService("C".to_string(), "B".to_string()))
    );
    assert_eq!(trace, vec!["probe C", "probe B"]);
    assert!(!live.contains(&"C".to_string()));
    assert_eq!(
        result.unwrap_err().to_string(),
        "Conflicting service: C conflicts with B"
    );
}

#[test]
fn running_service_is_not_started_again() {
    let mut orchestrator = Orchestrator::new();
    orchestrator.set_config(scenario());
    let mut live = vec!["B".to_string()];
    let (trace, result) = play(orchestrator.start_task("B"), &mut live, &[]);
    assert_eq!(result, Ok(()));
    assert_eq!(trace, vec!["probe B"]);
}

#[test]
fn unknown_task_is_not_found() {
    let mut orchestrator = Orchestrator::new();
    let mut live = Vec::new();
    let (trace, result) = play(orchestrator.start_task("A"), &mut live, &[]);
    assert_eq!(result, Err(OrchestratorError::TaskNotFound("A".to_string())));
    assert!(trace.is_empty());
    orchestrator.set_config(scenario());
    let (_, result) = play(orchestrator.start_task("nobody"), &mut live, &[]);
    assert_eq!(result, Err(OrchestratorError::TaskNotFound("nobody".to_string())));
    assert_eq!(result.unwrap_err().to_string(), "Task not found: nobody");
}

#[test]
fn failed_required_dependency_fails_the_start() {
    let mut orchestrator = Orchestrator::new();
    orchestrator.set_config(scenario());
    let mut live = Vec::new();
    let (trace, result) = play(orchestrator.start_task("B"), &mut live, &["A"]);
    assert_eq!(
        result,
        Err(OrchestratorError::ProcessError(ProcessError::StartError(
            "no such file".to_string()
        )))
    );
    assert_eq!(trace, vec!["probe B", "probe A", "launch A"]);
    assert_eq!(
        result.unwrap_err().to_string(),
        "Process error: Failed to start process: no such file"
    );
}

#[test]
fn failed_optional_dependency_is_dropped() {
    let mut orchestrator = Orchestrator::new();
    orchestrator.set_config(config(vec![group(
        "G",
        None,
        vec![
            service("A", &[]),
            typed(
                "B",
                vec![
                    ("A", DependencyType::Optional, Some(5)),
                    ("missing", DependencyType::Optional, None),
                ],
            ),
        ],
    )]));
    let mut live = Vec::new();
    let (trace, result) = play(orchestrator.start_task("B"), &mut live, &["A"]);
    assert_eq!(result, Ok(()));
    assert_eq!(trace, vec!["probe B", "probe A", "launch A", "launch B"]);
}

#[test]
fn plain_dependencies_start_in_list_order() {
    let mut orchestrator = Orchestrator::new();
    orchestrator.set_config(config(vec![
        group("G1", None, vec![service("web", &["db", "cache"])]),
        group("G2", None, vec![service("db", &[]), service("cache", &["db"])]),
    ]));
    let mut live = Vec::new();
    let (trace, result) = play(orchestrator.start_task("web"), &mut live, &[]);
    assert_eq!(result, Ok(()));
    assert_eq!(
        trace,
        vec![
            "probe web",
            "probe db",
            "launch db",
            "probe cache",
            "probe db",
            "launch cache",
            "launch web"
        ]
    );
}

#[test]
fn start_all_rejects_a_plain_cycle_before_anything_starts() {
    let mut orchestrator = Orchestrator::new();
    let mut live = Vec::new();
    let cfg = config(vec![group(
        "G",
        None,
        vec![service("A", &["B"]), service("B", &["A"])],
    )]);
    let (trace, result) = play(orchestrator.start_all(cfg), &mut live, &[]);
    assert_eq!(result, Err(OrchestratorError::CircularDependency));
    assert!(trace.is_empty());
    assert!(orchestrator.config().is_some());
    assert_eq!(
        OrchestratorError::CircularDependency.to_string(),
        "Circular dependency detected"
    );
}

#[test]
fn start_all_reports_a_dependency_that_names_nothing() {
    let mut orchestrator = Orchestrator::new();
    let mut live = Vec::new();
    let cfg = config(vec![group("G", None, vec![service("A", &["ghost"])])]);
    let (trace, result) = play(orchestrator.start_all(cfg), &mut live, &[]);
    assert_eq!(result, Err(OrchestratorError::TaskNotFound("ghost".to_string())));
    assert!(trace.is_empty());
}

#[test]
fn sequential_group_goes_on_past_a_failure_and_paces() {
    let mut orchestrator = Orchestrator::new();
    let mut live = Vec::new();
    let mut a = service("A", &[]);
    a.startup_delay = 30;
    let mut off = service("off", &[]);
    off.auto_start = false;
    let mut g = group("G", Some(StartupStrategy::Sequential), vec![a, off, service("B", &[])]);
    g.startup_delay = 70;
    let (trace, result) = play(orchestrator.start_all(config(vec![g])), &mut live, &["A"]);
    assert_eq!(result, Ok(()));
    assert_eq!(
        trace,
        vec!["probe A", "launch A", "pause 30", "probe B", "launch B", "pause 70"]
    );
}

#[test]
fn parallel_group_drops_failures_and_does_not_pace_services() {
    let mut orchestrator = Orchestrator::new();
    let mut live = Vec::new();
    let mut a = service("A", &[]);
    a.startup_delay = 30;
    let g = group("G", Some(StartupStrategy::Parallel), vec![a, service("B", &[])]);
    let (trace, result) = play(orchestrator.start_all(config(vec![g])), &mut live, &["A"]);
    assert_eq!(result, Ok(()));
    assert_eq!(trace, vec!["probe A", "launch A", "probe B", "launch B"]);
}

#[test]
fn mixed_group_starts_in_waves() {
    let mut orchestrator = Orchestrator::new();
    let mut live = Vec::new();
    let g = group(
        "G",
        Some(StartupStrategy::Mixed),
        vec![
            typed("web", vec![("api", DependencyType::Required, None)]),
            typed("api", vec![("db", DependencyType::Required, None)]),
            service("db", &[]),
        ],
    );
    let (trace, result) = play(orchestrator.start_all(config(vec![g])), &mut live, &[]);
    assert_eq!(result, Ok(()));
    let launches: Vec<&String> = trace.iter().filter(|t| t.starts_with("launch")).collect();
    assert_eq!(launches, vec!["launch db", "launch api", "launch web"]);
    assert_eq!(trace[0], "probe db");
}

#[test]
fn mixed_group_with_a_required_cycle_is_circular() {
    let mut orchestrator = Orchestrator::new();
    let mut live = Vec::new();
    let g = group(
        "G",
        Some(StartupStrategy::Mixed),
        vec![
            service("free", &[]),
            typed("X", vec![("Y", DependencyType::Required, None)]),
            typed("Y", vec![("X", DependencyType::Required, None)]),
        ],
    );
    let (trace, result) = play(orchestrator.start_all(config(vec![g])), &mut live, &[]);
    assert_eq!(result, Err(OrchestratorError::CircularDependency));
    assert_eq!(trace, vec!["probe free", "launch free"]);
    assert_eq!(live, vec!["free".to_string()]);
}

#[test]
fn start_group_stops_at_the_first_failure() {
    let mut orchestrator = Orchestrator::new();
    orchestrator.set_config(config(vec![group(
        "G",
        None,
        vec![service("A", &[]), service("B", &[]), service("C", &[])],
    )]));
    let mut live = Vec::new();
    let (trace, result) = play(orchestrator.start_group("G"), &mut live, &["B"]);
    assert!(matches!(result, Err(OrchestratorError::ProcessError(_))));
    assert_eq!(trace, vec!["probe A", "launch A", "probe B", "launch B"]);
    assert_eq!(live, vec!["A".to_string()]);
}

#[test]
fn stop_group_stops_at_the_first_failure() {
    let mut orchestrator = Orchestrator::new();
    orchestrator.set_config(config(vec![group(
        "G",
        None,
        vec![service("A", &[]), service("B", &[]), service("C", &[])],
    )]));
    let mut live = vec!["A".to_string(), "C".to_string()];
    let (trace, result) = play(orchestrator.stop_group("G"), &mut live, &[]);
    assert_eq!(
        result,
        Err(OrchestratorError::ProcessError(ProcessError::NotFound))
    );
    assert_eq!(trace, vec!["halt A", "halt B"]);
    assert_eq!(live, vec!["C".to_string()]);
    assert_eq!(result.unwrap_err().to_string(), "Process error: Process not found");
}

#[test]
fn unknown_group_is_not_found() {
    let mut orchestrator = Orchestrator::new();
    let mut live = Vec::new();
    let (_, result) = play(orchestrator.start_group("G"), &mut live, &[]);
    assert_eq!(result, Err(OrchestratorError::GroupNotFound("G".to_string())));
    orchestrator.set_config(scenario());
    let (_, result) = play(orchestrator.stop_group("H"), &mut live, &[]);
    assert_eq!(result, Err(OrchestratorError::GroupNotFound("H".to_string())));
    assert_eq!(result.unwrap_err().to_string(), "Group not found: H");
}

#[test]
fn restart_uses_the_snapshot_and_skips_dependencies() {
    let mut orchestrator = Orchestrator::new();
    orchestrator.set_config(scenario());
    let mut live = Vec::new();
    let (trace, result) = play(orchestrator.restart_task("B"), &mut live, &[]);
    assert_eq!(result, Ok(()));
    assert_eq!(trace, vec!["relaunch B"]);
    let (_, result) = play(orchestrator.restart_task("nobody"), &mut live, &[]);
    assert_eq!(result, Err(OrchestratorError::TaskNotFound("nobody".to_string())));
}

#[test]
fn stop_task_passes_the_process_error_on() {
    let mut orchestrator = Orchestrator::new();
    orchestrator.set_config(scenario());
    let mut live = vec!["A".to_string()];
    let (trace, result) = play(orchestrator.stop_task("A"), &mut live, &[]);
    assert_eq!(result, Ok(()));
    assert_eq!(trace, vec!["halt A"]);
    let (_, result) = play(orchestrator.stop_task("A"), &mut live, &[]);
    assert_eq!(
        result,
        Err(OrchestratorError::ProcessError(ProcessError::NotFound))
    );
}

#[test]
fn a_report_that_answers_nothing_changes_nothing() {
    let mut orchestrator = Orchestrator::new();
    orchestrator.set_config(scenario());
    let mut run = orchestrator.start_task("A");
    assert!(matches!(run.pending(), Action::Probe("A")));
    assert!(matches!(run.step(Event::Elapsed), Action::Probe("A")));
    assert!(matches!(run.step(Event::Outcome(Ok(()))), Action::Probe("A")));
    assert!(matches!(run.step(Event::Alive(false)), Action::Launch(_)));
    assert!(!run.is_over());
    assert!(matches!(run.step(Event::Outcome(Ok(()))), Action::Finish(Ok(()))));
    assert!(run.is_over());
    assert!(matches!(run.step(Event::Alive(true)), Action::Finish(Ok(()))));
}

#[test]
fn find_task_takes_the_first_service_of_that_id() {
    let mut orchestrator = Orchestrator::new();
    let mut first = service("A", &[]);
    first.path = "/first".to_string();
    let mut second = service("A", &[]);
    second.path = "/second".to_string();
    orchestrator.set_config(config(vec![
        group("G1", None, vec![service("B", &[]), first]),
        group("G2", None, vec![second]),
    ]));
    assert_eq!(orchestrator.find_task("A").unwrap().path, "/first");
    assert_eq!(
        orchestrator.find_task("Z").unwrap_err(),
        OrchestratorError::TaskNotFound("Z".to_string())
    );
    assert!(orchestrator.check_dependencies().is_ok());
}

#[test]
fn stop_all_stops_in_snapshot_order_until_the_first_failure() {
    let mut orchestrator = Orchestrator::new();
    assert!(orchestrator.stop_all_tasks().is_none());
    orchestrator.set_config(config(vec![
        group("G1", None, vec![service("A", &[]), service("B", &[])]),
        group("G2", None, vec![service("C", &[])]),
    ]));
    let mut live = vec!["A".to_string(), "B".to_string(), "C".to_string()];
    let (trace, result) = play(orchestrator.stop_all_tasks().unwrap(), &mut live, &[]);
    assert_eq!(result, Ok(()));
    assert_eq!(trace, vec!["halt A", "halt B", "halt C"]);
    assert!(live.is_empty());
    let mut live = vec!["A".to_string(), "C".to_string()];
    let (trace, result) = play(orchestrator.stop_all_tasks().unwrap(), &mut live, &[]);
    assert_eq!(
        result,
        Err(OrchestratorError::ProcessError(ProcessError::NotFound))
    );
    assert_eq!(trace, vec!["halt A", "halt B"]);
    assert_eq!(live, vec!["C".to_string()]);
}

#[test]
fn start_of_a_group_under_the_mixed_strategy() {
    let mut orchestrator = Orchestrator::new();
    orchestrator.set_config(config(vec![group(
        "G",
        None,
        vec![
            typed("late", vec![("early", DependencyType::Required, Some(10))]),
            service("early", &[]),
        ],
    )]));
    let mut live = Vec::new();
    let (trace, result) = play(orchestrator.start_group_mixed("G"), &mut live, &[]);
    assert_eq!(result, Ok(()));
    assert_eq!(
        trace,
        vec![
            "probe early",
            "launch early",
            "probe late",
            "probe early",
            "pause 10",
            "launch late"
        ]
    );
    let (_, result) = play(orchestrator.start_group_mixed("H"), &mut live, &[]);
    assert_eq!(result, Err(OrchestratorError::GroupNotFound("H".to_string())));
}
