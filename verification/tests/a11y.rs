use monadeck_overlay::a11y::{focus_event, is_focus_gain, text_role, A11y};

#[test]
fn text_widgets_and_editable_state_count() {
    assert!(focus_event("Entry".into(), &vec![0], "app".into()).editable);
    assert!(focus_event("password text".into(), &vec![], "app".into()).editable);
    assert!(focus_event("push button".into(), &vec![1 << 7], "app".into()).editable);
    let e = focus_event("push button".into(), &vec![0, 1 << 7], "Kate".into());
    assert!(!e.editable);
    assert_eq!((e.role.as_str(), e.app.as_str()), ("push button", "Kate"));
    assert!(text_role("search box") && !text_role("Search Box"));
}

#[test]
fn only_focus_gains_are_followed() {
    assert!(is_focus_gain("focused", 1));
    assert!(!is_focus_gain("focused", 0));
    assert!(!is_focus_gain("selected", 1));
}

#[test]
fn a_listener_that_fails_leaves_focus_tracking_off() {
    let off = A11y::start(|_tx| Err("no bus".to_string()));
    assert!(!off.ok);
    assert!(off.drain().is_empty());
    let on = A11y::start(|tx| {
        tx.send(focus_event("text".into(), &vec![], "gedit".into())).unwrap();
        Ok(())
    });
    assert!(on.ok);
    let got = on.drain();
    assert_eq!(got.len(), 1);
    assert!(got[0].editable);
}
