//! Identifier allocation, the command channel's delivery order, and the
//! session's setup script.

use afrish::start_with;
use afrish::trace_with;
use afrish::CommandChannel;
use afrish::IdAllocator;
use afrish::TkError;
use afrish::TkTopLevel;

#[test]
fn widget_ids_follow_the_counter() {
    let mut ids = IdAllocator::new();
    assert_eq!(".r1", ids.next_wid("."));
    assert_eq!(".r2", ids.next_wid("."));
    assert_eq!(".fr.r3", ids.next_wid(".fr"));
    assert_eq!("::var4", ids.next_var());
    assert_eq!(".r5", ids.next_wid("."));
    assert_eq!(5, ids.current_id());
}

#[test]
fn ids_are_pairwise_distinct() {
    let mut ids = IdAllocator::new();
    let mut seen: Vec<String> = Vec::new();
    for parent in [".", ".r1", ".fr", ".r1.r2", "."] {
        seen.push(ids.next_wid(parent));
        seen.push(ids.next_var());
    }
    for i in 0..seen.len() {
        for j in 0..seen.len() {
            if i != j {
                assert_ne!(seen[i], seen[j]);
            }
        }
    }
}

#[test]
fn channel_delivers_in_send_order() {
    let mut chan = CommandChannel::new();
    chan.send("a");
    chan.send("b");
    chan.send("c");
    let mut drained: Vec<String> = Vec::new();
    while let Some(line) = chan.next_to_write() {
        drained.push(line);
    }
    assert_eq!(vec!["a".to_string(), "b".to_string(), "c".to_string()], drained);
    assert!(chan.next_to_write().is_none());
    chan.send("d");
    assert_eq!("d", chan.next_to_write().unwrap());
}

#[test]
fn starting_enqueues_the_setup_script() {
    let session = start_with("wish").unwrap();
    assert!(!session.tracing());
    assert_eq!("wish", session.program);
    let mut chan = session.chan;
    let mut lines: Vec<String> = Vec::new();
    while let Some(line) = chan.next_to_write() {
        lines.push(line);
    }
    assert_eq!(5, lines.len());
    assert_eq!("wm protocol . WM_DELETE_WINDOW { puts stdout {exit} ; flush stdout } ", lines[0]);
    assert_eq!("option add *tearOff 0", lines[1]);
    assert!(lines[2].starts_with("proc font_choice {w font args} {"));
    assert!(lines[3].starts_with("proc scale_value {w value args} {"));
    assert_eq!("chan configure stdin -encoding utf-8", lines[4]);
}

#[test]
fn trace_with_turns_tracing_on() {
    let session = trace_with("tclkit").unwrap();
    assert!(session.tracing());
    assert_eq!("tclkit", session.program);
    assert_eq!(0, session.ids.current_id());
    assert_eq!(".", session.root().id);
}

#[test]
fn tell_wish_queues_after_setup() {
    let mut session = start_with("wish").unwrap();
    session.tell_wish("puts hello");
    let mut last = None;
    while let Some(line) = session.chan.next_to_write() {
        last = Some(line);
    }
    assert_eq!("puts hello", last.unwrap());
}

#[test]
fn errors_carry_their_message() {
    let err = TkError::new("Failed to start wish process".to_string());
    assert_eq!("Failed to start wish process", err.message());
}

#[test]
fn toplevel_title_sends_the_wm_command() {
    let top = TkTopLevel { id: ".".to_string() };
    let mut chan = CommandChannel::new();
    top.title("Example: push button", &mut chan);
    let line = chan.next_to_write().unwrap();
    assert_eq!("wm title . {Example: push button}\n", line);
}

#[test]
fn toplevel_bind_registers_and_sends() {
    let top = TkTopLevel { id: ".".to_string() };
    let mut chan = CommandChannel::new();
    let mut callbacks: afrish::CallbackStore<Box<dyn Fn()>> = afrish::CallbackStore::new();
    let command: Box<dyn Fn()> = Box::new(|| ());
    top.bind("Destroy", command, &mut callbacks, &mut chan);
    assert!(callbacks.contains("toplevel-Destroy"));
    let line = chan.next_to_write().unwrap();
    assert_eq!("bind . Destroy { puts clicked-toplevel-Destroy ; flush stdout }", line);
}
