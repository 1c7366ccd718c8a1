use std::sync::atomic::{AtomicBool, Ordering};
use std::sync::{Arc, Mutex};

use monadeck_overlay::clipboard::{clip_text, poll_switch, ClipboardWatcher};

#[test]
fn clipboard_text_is_one_trimmed_line() {
    assert_eq!(clip_text(b"  hello\nworld\r\n"), Some("hello world".to_string()));
    assert_eq!(clip_text(b" \n\t "), None);
    assert_eq!(clip_text(b""), None);
    assert_eq!(clip_text(b"caf\xc3\xa9"), Some("café".to_string()));
    assert_eq!(clip_text(b"a\xffb"), Some("a\u{FFFD}b".to_string()));
}

#[test]
fn the_watcher_polls_only_with_the_tool() {
    let active = Arc::new(AtomicBool::new(false));
    let latest = Arc::new(Mutex::new(Some("x".to_string())));
    let w = ClipboardWatcher::from_parts(active.clone(), latest.clone(), false);
    w.set_active(true);
    assert!(!active.load(Ordering::Relaxed));
    let w = ClipboardWatcher::from_parts(active.clone(), latest, true);
    w.set_active(true);
    assert!(active.load(Ordering::Relaxed));
    assert_eq!(w.latest(), Some("x".to_string()));
    w.set_active(false);
    assert!(!active.load(Ordering::Relaxed));
}

#[test]
fn the_preview_polls_only_when_asked_and_the_tool_exists() {
    assert!(poll_switch(true, true));
    assert!(!poll_switch(true, false));
    assert!(!poll_switch(false, true));
    assert!(!poll_switch(false, false));
}
