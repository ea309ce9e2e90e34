use service_flow::process::{stopped, Live, PollStatus, ProcessError, ProcessManager};

#[test]
fn stop_without_handle_is_not_found() {
    let mut pm: ProcessManager<u8> = ProcessManager::new();
    assert_eq!(pm.stop("ghost"), Err(ProcessError::NotFound));
    assert!(!pm.is_running("ghost", PollStatus::Running));
    assert_eq!(ProcessError::NotFound.to_string(), "Process not found");
}

#[test]
fn start_registers_and_stop_returns_the_handle() {
    let mut pm: ProcessManager<u8> = ProcessManager::new();
    assert_eq!(pm.start("a", Ok(Live { pid: 41, handle: 7 })), Ok(None));
    assert_eq!(pm.get_pid("a"), Some(41));
    assert_eq!(pm.handle("a"), Some(&7));
    assert!(pm.is_running("a", PollStatus::Running));
    assert_eq!(pm.stop("a"), Ok(7));
    assert_eq!(pm.get_pid("a"), None);
    assert_eq!(pm.handle("a"), None);
    assert_eq!(pm.stop("a"), Err(ProcessError::NotFound));
}

#[test]
fn failed_spawn_is_a_start_error_and_registers_nothing() {
    let mut pm: ProcessManager<u8> = ProcessManager::new();
    let outcome = pm.start("a", Err("permission denied".to_string()));
    assert_eq!(
        outcome,
        Err(ProcessError::StartError("permission denied".to_string()))
    );
    assert_eq!(
        outcome.unwrap_err().to_string(),
        "Failed to start process: permission denied"
    );
    assert_eq!(pm.get_pid("a"), None);
    assert!(pm.get_all_running_tasks().is_empty());
}

#[test]
fn second_start_displaces_the_first_handle() {
    let mut pm: ProcessManager<u8> = ProcessManager::new();
    assert_eq!(pm.start("a", Ok(Live { pid: 1, handle: 10 })), Ok(None));
    assert_eq!(pm.start("b", Ok(Live { pid: 2, handle: 20 })), Ok(None));
    assert_eq!(pm.start("a", Ok(Live { pid: 3, handle: 30 })), Ok(Some(10)));
    assert_eq!(pm.get_pid("a"), Some(3));
    assert_eq!(pm.get_pid("b"), Some(2));
    let mut ids = pm.get_all_running_tasks();
    ids.sort();
    assert_eq!(ids, vec!["a".to_string(), "b".to_string()]);
}

#[test]
fn liveness_is_idempotent_while_the_process_runs() {
    let mut pm: ProcessManager<u8> = ProcessManager::new();
    let _ = pm.start("a", Ok(Live { pid: 1, handle: 10 }));
    assert!(pm.is_running("a", PollStatus::Running));
    assert!(pm.is_running("a", PollStatus::Running));
    assert_eq!(pm.get_pid("a"), Some(1));
}

#[test]
fn exit_is_observed_once_and_reaps_the_handle() {
    let mut pm: ProcessManager<u8> = ProcessManager::new();
    let _ = pm.start("a", Ok(Live { pid: 1, handle: 10 }));
    assert!(pm.is_running("a", PollStatus::Running));
    assert!(!pm.is_running("a", PollStatus::Exited));
    assert_eq!(pm.get_pid("a"), None);
    assert!(!pm.is_running("a", PollStatus::Running));
    assert!(!pm.is_running("a", PollStatus::Exited));
}

#[test]
fn failed_poll_counts_as_gone() {
    let mut pm: ProcessManager<u8> = ProcessManager::new();
    let _ = pm.start("a", Ok(Live { pid: 1, handle: 10 }));
    assert!(!pm.is_running("a", PollStatus::Failed));
    assert_eq!(pm.stop("a"), Err(ProcessError::NotFound));
}

#[test]
fn restart_hands_back_a_running_handle_only() {
    let mut pm: ProcessManager<u8> = ProcessManager::new();
    let _ = pm.start("a", Ok(Live { pid: 1, handle: 10 }));
    assert_eq!(pm.restart("a", PollStatus::Running), Some(10));
    assert_eq!(pm.get_pid("a"), None);
    let _ = pm.start("a", Ok(Live { pid: 2, handle: 11 }));
    assert_eq!(pm.restart("a", PollStatus::Exited), None);
    assert_eq!(pm.get_pid("a"), None);
    assert_eq!(pm.restart("a", PollStatus::Running), None);
}

#[test]
fn kill_failure_is_a_kill_error() {
    assert_eq!(stopped(Ok(())), Ok(()));
    let outcome = stopped(Err("operation not permitted".to_string()));
    assert_eq!(
        outcome,
        Err(ProcessError::KillError("operation not permitted".to_string()))
    );
    assert_eq!(
        outcome.unwrap_err().to_string(),
        "Failed to kill process: operation not permitted"
    );
}

#[test]
fn shutdown_hands_back_every_handle() {
    let mut pm: ProcessManager<u8> = ProcessManager::new();
    let _ = pm.start("a", Ok(Live { pid: 1, handle: 10 }));
    let _ = pm.start("b", Ok(Live { pid: 2, handle: 20 }));
    let _ = pm.start("c", Ok(Live { pid: 3, handle: 30 }));
    let _ = pm.stop("b");
    let mut handles = pm.shutdown();
    handles.sort();
    assert_eq!(handles, vec![10, 30]);
    assert!(pm.get_all_running_tasks().is_empty());
    assert!(pm.shutdown().is_empty());
}
