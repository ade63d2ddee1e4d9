use lazysom::vm_runner::{DebugCommand, DebugEvent, GuiRegistration, SerializedFrame, SerializedVariable, VmRunner};
use std::sync::mpsc::channel;

fn frame(name: &str) -> SerializedFrame {
    SerializedFrame {
        name: name.to_string(),
        class_name: "Foo".to_string(),
        receiver_str: "a Foo".to_string(),
        args: vec![SerializedVariable { name: "x".to_string(), val_type: "Integer".to_string(), val_str: "3".to_string() }],
        locals: vec![],
        source: Some("bar = ( ^ x )".to_string()),
    }
}

#[test]
fn a_new_runner_is_idle_and_empty() {
    let r = VmRunner::new();
    assert_eq!(r.get_status_str(), "idle");
    assert_eq!(r.get_result(), "");
    assert_eq!(r.get_error(), "");
    assert!(r.get_stack().is_empty());
}

#[test]
fn output_is_gathered_and_taken_once() {
    let mut r = VmRunner::new();
    r.append_output("Hello, ");
    r.append_output("World");
    assert_eq!(r.take_output(), "Hello, World");
    assert_eq!(r.take_output(), "");
}

#[test]
fn gui_registrations_are_taken_in_order() {
    let mut r = VmRunner::new();
    r.register_gui("Title".to_string(), "code".to_string());
    r.register_gui_class("Editor".to_string());
    let regs = r.take_gui_registrations();
    assert_eq!(regs.len(), 2);
    assert!(matches!(&regs[0], GuiRegistration::Snippet { title, code } if title == "Title" && code == "code"));
    assert!(matches!(&regs[1], GuiRegistration::Class { class_name } if class_name == "Editor"));
    assert!(r.take_gui_registrations().is_empty());
}

#[test]
fn events_update_status_result_error_and_stack() {
    let mut r = VmRunner::new();
    r.apply_event(DebugEvent::Running);
    assert_eq!(r.get_status_str(), "running");
    r.apply_event(DebugEvent::Paused { stack: vec![frame("bar")] });
    assert_eq!(r.get_status_str(), "paused");
    let stack = r.get_stack();
    assert_eq!(stack.len(), 1);
    assert_eq!(stack[0].name, "bar");
    assert_eq!(stack[0].args[0].val_str, "3");
    r.apply_event(DebugEvent::Completed { result: "42".to_string() });
    assert_eq!(r.get_status_str(), "completed");
    assert_eq!(r.get_result(), "42");
    r.apply_event(DebugEvent::Errored { message: "boom".to_string() });
    assert_eq!(r.get_status_str(), "errored");
    assert_eq!(r.get_error(), "boom");
    // The last result is kept when an error comes later.
    assert_eq!(r.get_result(), "42");
    r.apply_event(DebugEvent::Idle);
    assert_eq!(r.get_status_str(), "idle");
}

#[test]
fn polling_reads_the_events_sent_so_far_in_order() {
    let mut r = VmRunner::new();
    r.append_output("old");
    let (cmd_tx, cmd_rx) = channel::<DebugCommand>();
    let (event_tx, event_rx) = channel::<DebugEvent>();
    r.begin_run(cmd_tx, event_rx);
    assert_eq!(r.get_status_str(), "running");
    assert_eq!(r.take_output(), "");
    event_tx.send(DebugEvent::Completed { result: "7".to_string() }).unwrap();
    event_tx.send(DebugEvent::Errored { message: "late".to_string() }).unwrap();
    r.poll_events();
    assert_eq!(r.get_status_str(), "errored");
    assert_eq!(r.get_result(), "7");
    assert_eq!(r.get_error(), "late");
    r.poll_events();
    assert_eq!(r.get_status_str(), "errored");

    r.resume();
    r.step_into();
    r.send_command(DebugCommand::Evaluate("1 + 1".to_string()));
    assert!(matches!(cmd_rx.try_recv(), Ok(DebugCommand::Resume)));
    assert!(matches!(cmd_rx.try_recv(), Ok(DebugCommand::StepInto)));
    assert!(matches!(cmd_rx.try_recv(), Ok(DebugCommand::Evaluate(ref c)) if c == "1 + 1"));

    r.stop();
    assert!(matches!(cmd_rx.try_recv(), Ok(DebugCommand::Stop)));
    assert_eq!(r.get_status_str(), "idle");
    // Once stopped, events are no longer read.
    let _ = event_tx.send(DebugEvent::Running);
    r.poll_events();
    assert_eq!(r.get_status_str(), "idle");
}

#[test]
fn commands_without_an_evaluation_go_nowhere() {
    let mut r = VmRunner::new();
    r.resume();
    r.step_into();
    r.send_command(DebugCommand::Stop);
    assert_eq!(r.get_status_str(), "idle");
}

#[test]
fn a_new_run_tells_the_previous_one_to_stop_and_forgets_it() {
    let mut r = VmRunner::new();
    let (tx1, rx1) = channel::<DebugCommand>();
    let (_etx1, erx1) = channel::<DebugEvent>();
    r.begin_run(tx1, erx1);
    r.apply_event(DebugEvent::Completed { result: "first".to_string() });
    r.register_gui_class("X".to_string());
    let (tx2, _rx2) = channel::<DebugCommand>();
    let (_etx2, erx2) = channel::<DebugEvent>();
    r.begin_run(tx2, erx2);
    assert!(matches!(rx1.try_recv(), Ok(DebugCommand::Stop)));
    assert_eq!(r.get_result(), "");
    assert!(r.take_gui_registrations().is_empty());
    assert_eq!(r.get_status_str(), "running");
}

#[test]
fn recorded_events_are_applied_in_order() {
    let mut r = VmRunner::new();
    r.apply_events(vec![
        DebugEvent::Running,
        DebugEvent::Completed { result: "3".to_string() },
        DebugEvent::Errored { message: "boom".to_string() },
    ]);
    assert_eq!(r.get_status_str(), "errored");
    assert_eq!(r.get_result(), "3");
    assert_eq!(r.get_error(), "boom");
    r.apply_events(vec![]);
    assert_eq!(r.get_status_str(), "errored");
}
