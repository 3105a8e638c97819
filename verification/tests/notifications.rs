//! Classifying notification lines, parsing their numeric fields, and the
//! event loop's transitions.

use afrish::classify_line;
use afrish::event::parse_i64_or_zero;
use afrish::event::parse_u64_or_zero;
use afrish::EventLoop;
use afrish::LoopState;
use afrish::Notification;

#[test]
fn structured_event_line_parses_every_field() {
    let note = classify_line("cb1e:.b1:10:20:110:220:50:80:65:a:1");
    match note {
        Notification::EventFired(pattern, event) => {
            assert_eq!(".b1", pattern);
            assert_eq!(10, event.x);
            assert_eq!(20, event.y);
            assert_eq!(110, event.root_x);
            assert_eq!(220, event.root_y);
            assert_eq!(50, event.height);
            assert_eq!(80, event.width);
            assert_eq!(65, event.key_code);
            assert_eq!("a", event.key_symbol);
            assert_eq!(1, event.mouse_button);
        },
        _ => panic!("expected a structured event"),
    }
}

#[test]
fn structured_event_bad_fields_fall_back_to_zero() {
    let note = classify_line("cb1e:.b1:x: 2:-:+:99999999999999999999:-3:65::1");
    match note {
        Notification::EventFired(pattern, event) => {
            assert_eq!(".b1", pattern);
            assert_eq!(0, event.x);
            assert_eq!(0, event.y);
            assert_eq!(0, event.root_x);
            assert_eq!(0, event.root_y);
            assert_eq!(0, event.height);
            assert_eq!(-3, event.width);
            assert_eq!(65, event.key_code);
            assert_eq!("", event.key_symbol);
            assert_eq!(1, event.mouse_button);
        },
        _ => panic!("expected a structured event"),
    }
}

#[test]
fn structured_event_with_missing_fields_is_ignored() {
    let note = classify_line("cb1e:.b1:10:20");
    assert!(matches!(note, Notification::Unrecognized));
}

#[test]
fn boolean_change_true_and_false() {
    match classify_line("cb1b-.cb2-1") {
        Notification::BoolChange(widget, value) => {
            assert_eq!(".cb2", widget);
            assert!(value);
        },
        _ => panic!("expected a boolean change"),
    }
    match classify_line("cb1b-.cb2-0") {
        Notification::BoolChange(widget, value) => {
            assert_eq!(".cb2", widget);
            assert!(!value);
        },
        _ => panic!("expected a boolean change"),
    }
}

#[test]
fn clicked_line_names_the_widget_key() {
    match classify_line("clicked-toplevel-notify") {
        Notification::Clicked(widget) => assert_eq!("toplevel-notify", widget),
        _ => panic!("expected a click"),
    }
}

#[test]
fn scale_change_carries_raw_value_text() {
    match classify_line("cb1f-.scale-0.5") {
        Notification::ScaleChange(widget, value) => {
            assert_eq!(".scale", widget);
            assert_eq!("0.5", value);
        },
        _ => panic!("expected a scale change"),
    }
}

#[test]
fn font_line_is_trimmed_description() {
    match classify_line("font -family {DejaVu Sans} -size 12 ") {
        Notification::FontChoice(description) => {
            assert_eq!("-family {DejaVu Sans} -size 12", description);
        },
        _ => panic!("expected a font choice"),
    }
}

#[test]
fn unknown_lines_are_unrecognized() {
    assert!(matches!(classify_line(""), Notification::Unrecognized));
    assert!(matches!(classify_line("hello"), Notification::Unrecognized));
    assert!(matches!(classify_line("clicked"), Notification::Unrecognized));
    assert!(matches!(classify_line("cb1b-.c"), Notification::Unrecognized));
}

#[test]
fn exit_line_classifies_as_exit() {
    assert!(matches!(classify_line("exit"), Notification::Exit));
}

#[test]
fn parse_i64_matches_std_fallback() {
    assert_eq!(42, parse_i64_or_zero("42"));
    assert_eq!(-42, parse_i64_or_zero("-42"));
    assert_eq!(7, parse_i64_or_zero("+7"));
    assert_eq!(0, parse_i64_or_zero(""));
    assert_eq!(0, parse_i64_or_zero("+"));
    assert_eq!(0, parse_i64_or_zero("-"));
    assert_eq!(0, parse_i64_or_zero(" 1"));
    assert_eq!(0, parse_i64_or_zero("12a"));
    assert_eq!(9223372036854775807, parse_i64_or_zero("9223372036854775807"));
    assert_eq!(0, parse_i64_or_zero("9223372036854775808"));
    assert_eq!(i64::MIN, parse_i64_or_zero("-9223372036854775808"));
    assert_eq!(0, parse_i64_or_zero("-9223372036854775809"));
    assert_eq!("42".parse::<i64>().unwrap_or(0), parse_i64_or_zero("42"));
    assert_eq!("007".parse::<i64>().unwrap_or(0), parse_i64_or_zero("007"));
    assert_eq!("--1".parse::<i64>().unwrap_or(0), parse_i64_or_zero("--1"));
}

#[test]
fn parse_u64_matches_std_fallback() {
    assert_eq!(65, parse_u64_or_zero("65"));
    assert_eq!(9, parse_u64_or_zero("+9"));
    assert_eq!(0, parse_u64_or_zero("-9"));
    assert_eq!(18446744073709551615, parse_u64_or_zero("18446744073709551615"));
    assert_eq!(0, parse_u64_or_zero("18446744073709551616"));
    assert_eq!(0, parse_u64_or_zero("1 "));
}

#[test]
fn exit_stops_the_loop_and_kills_once() {
    let mut events = EventLoop::new();
    assert_eq!(LoopState::Running, events.current_state());
    let note = events.on_line("cb1b-.c-1");
    assert!(matches!(note, Notification::BoolChange(_, true)));
    assert_eq!(LoopState::Running, events.current_state());
    let note = events.on_line("exit");
    assert!(matches!(note, Notification::Exit));
    assert_eq!(LoopState::Terminating, events.current_state());
    // the embedding kills the child here, exactly once, then confirms
    events.child_killed();
    assert_eq!(LoopState::Stopped, events.current_state());
    assert!(events.done());
}
