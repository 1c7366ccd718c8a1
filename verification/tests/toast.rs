use monadeck_overlay::toast::{Kind, Toast, Toasts, ENTER_MS, EXIT_MS, HURRY_MS, QUEUE_CAP};

fn toast(kind: Kind, title: &str) -> Toast<()> {
    Toast::new(kind, title.to_string(), String::new(), ())
}

#[test]
fn card_lifecycle_and_ordering() {
    let mut ts: Toasts<()> = Toasts::new();
    let t0 = 10_000u64;
    ts.push(toast(Kind::Notification, "a").millis(1000), t0);
    ts.push(toast(Kind::Notification, "b").millis(1000), t0);
    ts.push(toast(Kind::Timer, "alarm"), t0);
    // Nothing shows without a head pose.
    assert_eq!(ts.tick(t0, false), None);
    // The alarm cut to the front.
    assert_eq!(ts.tick(t0, true), Some(Kind::Timer));
    assert_eq!(ts.queue.len(), 2);
    assert_eq!(ts.current.as_ref().unwrap().shown_at, Some(t0));
    // Past its lifetime it's gone and the next one starts.
    let later = t0 + Kind::Timer.dwell() + ENTER_MS + EXIT_MS + 10;
    assert_eq!(ts.tick(later, true), Some(Kind::Notification));
    assert_eq!(ts.current.as_ref().unwrap().title, "a");
    // With one waiting, a notification is hurried along.
    let c = ts.current.as_ref().unwrap();
    assert!(c.until <= later + HURRY_MS + EXIT_MS);
}

#[test]
fn readout_updates_in_place_and_yields() {
    let mut ts: Toasts<()> = Toasts::new();
    let t0 = 500u64;
    ts.push(toast(Kind::Info, "hint"), t0);
    assert_eq!(ts.tick(t0, true), Some(Kind::Info));
    ts.readout("Screen 1".into(), "1.2 m".into(), (), t0 + 10);
    let shown = ts.current.as_ref().unwrap().shown_at;
    ts.readout("Screen 1".into(), "1.3 m".into(), (), t0 + 20);
    assert_eq!(ts.current.as_ref().unwrap().shown_at, shown);
    assert_eq!(ts.current.as_ref().unwrap().body, "1.3 m");
    // The hint went back to the front of the queue.
    assert_eq!(ts.queue.len(), 1);
    assert_eq!(ts.queue.front().unwrap().kind, Kind::Info);
    assert_eq!(ts.queue.front().unwrap().shown_at, None);
}

#[test]
fn flood_keeps_the_newest() {
    let mut ts: Toasts<()> = Toasts::new();
    for i in 0..20 {
        ts.push(toast(Kind::Notification, &format!("n{i}")), 0);
    }
    assert_eq!(ts.queue.len(), QUEUE_CAP);
    assert_eq!(ts.queue.back().unwrap().title, "n19");
    assert_eq!(ts.queue.front().unwrap().title, "n12");
}

#[test]
fn alarms_survive_a_flood_and_hurry_the_card_on_screen() {
    let mut ts: Toasts<()> = Toasts::new();
    ts.push(toast(Kind::Notification, "showing"), 0);
    assert_eq!(ts.tick(0, true), Some(Kind::Notification));
    let until = ts.current.as_ref().unwrap().until;
    assert_eq!(until, ENTER_MS + 5000 + EXIT_MS);
    ts.push(toast(Kind::Battery, "low"), 100);
    assert_eq!(ts.current.as_ref().unwrap().until, 100 + 600 + EXIT_MS);
    for i in 0..12 {
        ts.push(toast(Kind::Notification, &format!("n{i}")), 200);
    }
    assert_eq!(ts.queue.len(), QUEUE_CAP);
    assert_eq!(ts.queue.front().unwrap().kind, Kind::Battery);
}

#[test]
fn placed_cards_need_no_head_pose() {
    let mut ts: Toasts<()> = Toasts::new();
    ts.push(toast(Kind::Info, "here").at(), 0);
    assert_eq!(ts.tick(0, false), Some(Kind::Info));
    assert!(ts.active());
}
