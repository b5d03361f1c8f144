use image_viewer::dispatch::{handle_args, Args};
use image_viewer::gate::StartupState;

#[test]
fn buffered_paths_flush_in_order_then_bypass() {
    let mut gate = StartupState::new();
    assert_eq!(gate.enqueue_or_emit("x.png"), None);
    assert_eq!(gate.enqueue_or_emit("y.png"), None);
    let flushed = gate.mark_ready_and_flush();
    assert_eq!(flushed, vec!["x.png".to_string(), "y.png".to_string()]);
    assert_eq!(gate.enqueue_or_emit("z.png"), Some("z.png".to_string()));
}

#[test]
fn second_flush_emits_nothing() {
    let mut gate = StartupState::new();
    gate.enqueue_or_emit("a.png");
    assert_eq!(gate.mark_ready_and_flush(), vec!["a.png".to_string()]);
    assert!(gate.mark_ready_and_flush().is_empty());
    assert!(gate.is_ready());
}

#[test]
fn flush_on_empty_gate_then_immediate_delivery() {
    let mut gate = StartupState::default();
    assert!(!gate.is_ready());
    assert!(gate.mark_ready_and_flush().is_empty());
    assert_eq!(gate.enqueue_or_emit("p.png"), Some("p.png".to_string()));
    assert!(gate.mark_ready_and_flush().is_empty());
}

#[test]
fn submit_racing_flush_delivered_once_either_order() {
    // submit first, then the ready signal
    let mut a = StartupState::new();
    let mut delivered_a: Vec<String> = Vec::new();
    delivered_a.extend(a.enqueue_or_emit("p.png"));
    delivered_a.extend(a.mark_ready_and_flush());
    // the ready signal first, then the submit
    let mut b = StartupState::new();
    let mut delivered_b: Vec<String> = Vec::new();
    delivered_b.extend(b.mark_ready_and_flush());
    delivered_b.extend(b.enqueue_or_emit("p.png"));
    assert_eq!(delivered_a, vec!["p.png".to_string()]);
    assert_eq!(delivered_b, vec!["p.png".to_string()]);
}

#[test]
fn many_submits_flush_each_once_in_order() {
    let mut gate = StartupState::new();
    let paths: Vec<String> = (0..50).map(|i| format!("img{}.png", i)).collect();
    for p in &paths {
        assert_eq!(gate.enqueue_or_emit(p), None);
    }
    assert_eq!(gate.mark_ready_and_flush(), paths);
}

#[test]
fn handle_args_submits_open_path() {
    let mut gate = StartupState::new();
    assert_eq!(handle_args(&mut gate, Args::none()), None);
    assert_eq!(handle_args(&mut gate, Args { open: Some("a.png".to_string()) }), None);
    assert_eq!(gate.mark_ready_and_flush(), vec!["a.png".to_string()]);
    assert_eq!(
        handle_args(&mut gate, Args { open: Some("b.png".to_string()) }),
        Some("b.png".to_string())
    );
    assert_eq!(handle_args(&mut gate, Args::none()), None);
}
