use en_croissant::diagnostics::{DiagnosticLog, DEFAULT_LOG_CAPACITY};
use en_croissant::engine::{
    Creation, EngineError, EngineKey, EngineRegistry, HandleState, ProcessHandle,
};

fn key(engine: &str, session: &str) -> EngineKey {
    EngineKey { engine_id: engine.to_string(), session_id: session.to_string() }
}

fn strings(lines: &[&str]) -> Vec<String> {
    lines.iter().map(|l| l.to_string()).collect()
}

#[test]
fn the_log_keeps_the_most_recent_lines() {
    let mut log = DiagnosticLog::new(3);
    assert_eq!(log.len(), 0);
    for line in ["a", "b"] {
        log.record(line.to_string());
    }
    assert_eq!(log.lines(), strings(&["a", "b"]));
    for line in ["c", "d", "e"] {
        log.record(line.to_string());
    }
    assert_eq!(log.lines(), strings(&["c", "d", "e"]));
    assert_eq!(log.len(), 3);
    log.clear();
    assert_eq!(log.lines(), strings(&[]));
    log.record("f".to_string());
    assert_eq!(log.lines(), strings(&["f"]));
}

#[test]
fn a_log_without_room_keeps_nothing() {
    let mut log = DiagnosticLog::new(0);
    log.record("a".to_string());
    assert_eq!(log.len(), 0);
    assert_eq!(DEFAULT_LOG_CAPACITY, 256);
}

#[test]
fn lines_go_to_a_running_process_only() {
    let mut handle = ProcessHandle::starting(10);
    assert_eq!(handle.state(), HandleState::Starting);
    assert_eq!(handle.send_line("uci"), Err(EngineError::WriteFailure));
    assert_eq!(handle.ensure_running(), Err(EngineError::ProcessTerminated));
    assert!(handle.started());
    assert!(!handle.started());
    assert_eq!(handle.ensure_running(), Ok(()));
    assert_eq!(handle.send_line("uci"), Ok(()));
    handle.line_read("uciok");
    assert_eq!(handle.send_line("go depth 10"), Ok(()));
    assert_eq!(handle.logs(), strings(&["uci", "uciok", "go depth 10"]));
    assert_eq!(handle.last_command(), Some(&"go depth 10".to_string()));
    assert!(handle.terminate());
    assert!(!handle.terminate());
    assert_eq!(handle.state(), HandleState::Exited);
    assert_eq!(handle.send_line("stop"), Err(EngineError::WriteFailure));
    assert_eq!(handle.ensure_running(), Err(EngineError::ProcessTerminated));
    assert_eq!(handle.logs(), strings(&["uci", "uciok", "go depth 10"]));
    handle.clear_logs();
    assert_eq!(handle.logs(), strings(&[]));
}

#[test]
fn one_process_is_started_for_each_key() {
    let mut registry = EngineRegistry::new();
    let k = key("stockfish", "tab1");
    assert_eq!(registry.get_or_create(&k, 8), Creation::Spawn);
    assert_eq!(registry.get_or_create(&k, 8), Creation::Wait);
    assert!(!registry.is_live(&k));
    assert_eq!(registry.get_or_create(&key("stockfish", "tab2"), 8), Creation::Spawn);
    assert_eq!(registry.get_or_create(&key("lc0", "tab1"), 8), Creation::Spawn);
    assert!(registry.spawned(&k));
    assert!(!registry.spawned(&k));
    assert_eq!(registry.get_or_create(&k, 8), Creation::Existing);
    assert_eq!(registry.get_or_create(&k, 8), Creation::Existing);
    assert!(registry.is_live(&k));
    assert_eq!(registry.len(), 3);
}

#[test]
fn a_failed_start_is_reported_once_and_leaves_no_process() {
    let mut registry = EngineRegistry::new();
    let k = key("stockfish", "tab1");
    assert_eq!(registry.get_or_create(&k, 8), Creation::Spawn);
    assert_eq!(registry.spawn_failed(&k), Some(EngineError::SpawnFailure));
    assert_eq!(registry.spawn_failed(&k), None);
    assert!(!registry.is_live(&k));
    assert_eq!(registry.len(), 0);
    assert_eq!(registry.get_or_create(&k, 8), Creation::Spawn);
}

#[test]
fn an_exited_process_fails_its_requests_and_is_gone() {
    let mut registry = EngineRegistry::new();
    let k = key("stockfish", "tab1");
    let other = key("stockfish", "tab2");
    registry.get_or_create(&k, 8);
    registry.spawned(&k);
    registry.get_or_create(&other, 8);
    registry.spawned(&other);
    assert_eq!(registry.ensure_running(&k), Ok(()));
    assert_eq!(registry.process_exited(&k), Some(EngineError::ProcessTerminated));
    assert_eq!(registry.process_exited(&k), None);
    assert!(!registry.is_live(&k));
    assert_eq!(registry.ensure_running(&k), Err(EngineError::ProcessTerminated));
    assert_eq!(registry.send_line(&k, "go"), Err(EngineError::ProcessTerminated));
    assert!(registry.is_live(&other));
    assert_eq!(registry.send_line(&other, "go"), Ok(()));
}

#[test]
fn lines_are_logged_by_process() {
    let mut registry = EngineRegistry::new();
    let k = key("stockfish", "tab1");
    assert_eq!(registry.logs(&k), None);
    registry.get_or_create(&k, 2);
    assert_eq!(registry.send_line(&k, "uci"), Err(EngineError::WriteFailure));
    registry.spawned(&k);
    assert_eq!(registry.send_line(&k, "uci"), Ok(()));
    assert!(registry.line_read(&k, "id name Stockfish"));
    assert!(registry.line_read(&k, "uciok"));
    assert!(!registry.line_read(&key("lc0", "tab1"), "uciok"));
    assert_eq!(registry.logs(&k), Some(strings(&["id name Stockfish", "uciok"])));
    assert!(registry.clear_logs(&k));
    assert!(!registry.clear_logs(&key("lc0", "tab1")));
    assert_eq!(registry.logs(&k), Some(strings(&[])));
}

#[test]
fn stopping_removes_the_process() {
    let mut registry = EngineRegistry::new();
    let k = key("stockfish", "tab1");
    registry.get_or_create(&k, 8);
    registry.spawned(&k);
    registry.send_line(&k, "isready").unwrap();
    let mut handle = registry.stop(&k).unwrap();
    assert_eq!(handle.state(), HandleState::Running);
    assert_eq!(handle.last_command(), Some(&"isready".to_string()));
    assert!(handle.terminate());
    assert!(registry.stop(&k).is_none());
    assert!(!registry.is_live(&k));
}

#[test]
fn stopping_all_empties_the_registry() {
    let mut registry = EngineRegistry::new();
    for (engine, session) in [("stockfish", "tab1"), ("lc0", "tab1"), ("stockfish", "tab2")] {
        registry.get_or_create(&key(engine, session), 8);
    }
    registry.spawned(&key("lc0", "tab1"));
    let stopped = registry.stop_all();
    assert_eq!(stopped, vec![key("stockfish", "tab1"), key("lc0", "tab1"), key("stockfish", "tab2")]);
    assert_eq!(registry.len(), 0);
    assert!(!registry.is_live(&key("lc0", "tab1")));
    assert_eq!(registry.ensure_running(&key("lc0", "tab1")), Err(EngineError::ProcessTerminated));
    assert_eq!(registry.stop_all(), vec![]);
}
