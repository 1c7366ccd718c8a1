use monadeck_overlay::launch::{cmdline_is_launch, resets, Outcome, ProcState, TrackedLaunch, WatchLoop};

fn launch_of(vr: bool, now: u64) -> TrackedLaunch {
    TrackedLaunch::new(
        "VaM VR".into(),
        "3968468407".into(),
        "17044442023307771904".into(),
        vr,
        false,
        Some("GE-Proton11-1".into()),
        now,
    )
}

#[test]
fn reaper_cmdline_matches_only_its_own_appid() {
    let cmd = b"/home/u/.local/share/Steam/ubuntu12_32/reaper\0SteamLaunch\0AppId=3968468407\0--\0/x/_v2-entry-point\0";
    assert!(cmdline_is_launch(cmd, "3968468407"));
    assert!(!cmdline_is_launch(cmd, "396846840"));
    assert!(!cmdline_is_launch(cmd, "438100"));
    // The id elsewhere on a command line isn't a launch.
    assert!(!cmdline_is_launch(b"cat\0AppId=438100\0", "438100"));
}

#[test]
fn prefix_upgrade_death_retries_once() {
    let t0 = 5_000u64;
    let mut t = launch_of(true, t0);
    assert_eq!(t.poll(ProcState::Unknown, false, t0, || None), Outcome::Pending);
    assert_eq!(t.poll(ProcState::Alive, false, t0 + 2_000, || None), Outcome::Pending);
    let out = t.poll(ProcState::Gone, false, t0 + 51_000, || Some("GE-Proton11-7".into()));
    assert!(matches!(out, Outcome::Exited { upgraded: true, .. }));
    assert!(t.should_retry(&out));
    let t1 = t0 + 60_000;
    t.restart(Some("GE-Proton11-7".into()), t1);
    // Dies again on the same prefix: no second retry, and not "upgraded".
    t.poll(ProcState::Alive, false, t1, || None);
    let out = t.poll(ProcState::Gone, false, t1 + 20_000, || Some("GE-Proton11-7".into()));
    assert!(matches!(out, Outcome::Exited { upgraded: false, .. }));
    assert!(!t.should_retry(&out));
}

#[test]
fn gone_before_ever_seen_stays_pending() {
    let mut t = launch_of(false, 0);
    assert_eq!(t.poll(ProcState::Gone, false, 0, || None), Outcome::Pending);
    assert!(!t.process_seen());
}

#[test]
fn flat_games_settle_and_vr_games_wait_for_the_xr_client() {
    let t0 = 1_000u64;
    let mut flat = launch_of(false, t0);
    flat.poll(ProcState::Alive, false, t0, || None);
    assert_eq!(flat.poll(ProcState::Alive, false, t0 + 13_000, || None), Outcome::Launched);
    let mut vr = launch_of(true, t0);
    vr.poll(ProcState::Alive, false, t0, || None);
    assert_eq!(vr.poll(ProcState::Alive, false, t0 + 13_000, || None), Outcome::Pending);
    assert_eq!(vr.poll(ProcState::Alive, true, t0 + 14_000, || None), Outcome::Launched);
}

#[test]
fn exit_time_and_expiry_are_measured_from_the_start() {
    let mut t = launch_of(false, 10_000);
    t.poll(ProcState::Alive, false, 11_000, || None);
    let out = t.poll(ProcState::Gone, false, 200_000, || Some("GE-Proton11-1".into()));
    assert_eq!(out, Outcome::Exited { upgraded: false, after: 190_000 });
    assert!(!t.expired(190_000));
    assert!(t.expired(190_001));
    // Too late for a retry even when the prefix changed.
    let late = Outcome::Exited { upgraded: true, after: 180_001 };
    assert!(!t.should_retry(&late));
    let mut u = launch_of(false, 0);
    u.uevr = true;
    assert!(!u.should_retry(&Outcome::Exited { upgraded: true, after: 10 }));
}

#[test]
fn the_watch_needs_two_misses_to_call_it_gone() {
    let mut w = WatchLoop::new();
    assert!(w.retarget(Some("42".into())));
    assert!(!w.retarget(Some("42".into())));
    assert_eq!(w.scanned(true), Some(ProcState::Alive));
    assert_eq!(w.scanned(false), None);
    assert_eq!(w.scanned(false), Some(ProcState::Gone));
    assert!(w.retarget(None));
    assert_eq!(w.misses, 0);
    assert_eq!(ProcState::from_code(ProcState::Gone.code()), ProcState::Gone);
    assert_eq!(ProcState::from_code(9), ProcState::Unknown);
}

use monadeck_overlay::launch::{is_pid_name, reaper_launches};

#[test]
fn only_pid_directories_and_long_reaper_lines_are_scanned() {
    assert!(is_pid_name("1234"));
    assert!(!is_pid_name("self"));
    assert!(is_pid_name(""));
    let cmd = b"reaper\0SteamLaunch\0AppId=438100\0--\0";
    assert!(reaper_launches(cmd, "438100"));
    assert!(!reaper_launches(b"x\0SteamLaunch\0AppId=1\0", "1"));
}

#[test]
fn an_exit_after_the_launch_counted_is_no_failed_launch() {
    let mut t = TrackedLaunch::new("G".into(), "1".into(), "1".into(), false, false, None, 0);
    assert_eq!(t.poll(ProcState::Alive, false, 0, || None), Outcome::Pending);
    assert_eq!(t.poll(ProcState::Alive, false, 13_000, || None), Outcome::Launched);
    assert_eq!(t.poll(ProcState::Gone, false, 20_000, || Some("other".into())), Outcome::Launched);
    assert!(!t.should_retry(&Outcome::Launched));
    // After a restart the new run has to count again.
    t.restart(None, 30_000);
    t.poll(ProcState::Alive, false, 31_000, || None);
    assert!(matches!(t.poll(ProcState::Gone, false, 33_000, || None), Outcome::Exited { upgraded: false, after: 3_000 }));
}

#[test]
fn only_a_new_target_resets_the_watch() {
    assert!(!resets(&Some("438100".into()), &Some("438100".into())));
    assert!(resets(&Some("438100".into()), &Some("620".into())));
    assert!(resets(&None, &Some("620".into())));
    assert!(resets(&Some("620".into()), &None));
    assert!(!resets(&None, &None));
}

#[test]
fn an_id_holding_a_nul_is_never_one_argument() {
    let cmd = b"reaper\0SteamLaunch\0AppId=1\0x";
    assert!(!cmdline_is_launch(cmd, "1\0x"));
    assert!(cmdline_is_launch(cmd, "1"));
    assert!(!cmdline_is_launch(b"SteamLaunch\0AppId=\0", "\0"));
}
