use monadeck_overlay::monado::{
    battery_kind, is_game, poll_batteries, poll_clients, primary_app, role_glove, BatteryKind, ClientReading,
    DevState, DeviceReading, LinkAction, LinkCmd, LinkState, LostTimers, LOST_AFTER_MS,
};

fn client(id: u32, name: Option<&str>, primary: bool, overlay: bool, visible: bool) -> ClientReading {
    ClientReading { id, name: name.map(|n| n.to_string()), primary, overlay, visible, active: true }
}

#[test]
fn the_running_game_is_the_primary_named_app() {
    let cs = vec![
        client(1, Some("monadeck"), true, true, true),
        client(2, Some("  "), true, false, true),
        client(3, Some("LibMonado"), true, false, true),
        client(4, Some(" VRChat "), true, false, true),
        client(5, Some("Other"), true, false, true),
    ];
    assert_eq!(primary_app(&cs), Some(" VRChat ".to_string()));
    let first3 = vec![
        client(1, Some("monadeck"), true, true, true),
        client(2, Some("  "), true, false, true),
        client(3, Some("LibMonado"), true, false, true),
    ];
    assert_eq!(primary_app(&first3), None);
    assert!(is_game(&client(6, None, false, false, true)));
    assert!(!is_game(&client(6, None, false, true, true)));
}

#[test]
fn the_monado_page_lists_real_app_clients() {
    let cs = vec![
        client(1, Some("monadeck"), false, true, true),
        client(3, Some(" VRChat "), true, false, true),
        client(5, Some("NemuriXR"), false, false, false),
        client(7, None, false, false, true),
        client(8, Some("libmonado"), false, false, true),
    ];
    let v = poll_clients(&cs, &vec![5]);
    assert_eq!(v.len(), 2);
    assert_eq!((v[0].id, v[0].name.as_str(), v[0].is_app, v[0].is_primary, v[0].frozen), (3, "VRChat", true, true, false));
    assert_eq!((v[1].id, v[1].name.as_str(), v[1].is_app, v[1].is_primary, v[1].frozen), (5, "NemuriXR", false, false, true));
}

fn dev(index: u32, name: &str, key: &str, battery: Option<bool>, tracking: Option<(bool, bool)>) -> DeviceReading {
    DeviceReading { index, name: name.into(), key: key.into(), battery, tracking }
}

#[test]
fn batteries_classify_and_go_lost_after_a_second() {
    assert_eq!(battery_kind("UdCap Glove L", 1, None, None), BatteryKind::Glove);
    assert_eq!(battery_kind("Valve Index Controller", 9, None, None), BatteryKind::Controller);
    assert_eq!(battery_kind("Thing", 2, Some(2), None), BatteryKind::Controller);
    assert_eq!(battery_kind("Vive Tracker 3.0", 4, None, None), BatteryKind::Tracker);
    assert_eq!(battery_kind("Headset", 0, None, None), BatteryKind::Other);

    let devs = vec![
        dev(0, "HMD", "hmd", None, Some((true, true))),
        dev(1, "Knuckles Left", "L", Some(true), Some((true, false))),
        dev(2, "Tracker", "T", Some(true), Some((false, false))),
        dev(3, "Knuckles Right", "R", Some(false), None),
    ];
    let mut timers = LostTimers::new();
    let v = poll_batteries(&devs, Some(1), Some(3), &mut timers, 10_000);
    assert_eq!(v.iter().map(|e| e.device).collect::<Vec<_>>(), vec![1, 2, 3]);
    assert_eq!(v[0].state, DevState::Live);
    assert!(v[0].charging);
    assert_eq!((v[1].kind, v[1].state, v[1].charging), (BatteryKind::Tracker, DevState::Off, false));
    assert_eq!((v[2].kind, v[2].state), (BatteryKind::Controller, DevState::Live));
    assert_eq!(timers.entries.len(), 1);
    let v = poll_batteries(&devs, Some(1), Some(3), &mut timers, 10_000 + LOST_AFTER_MS);
    assert_eq!(v[0].state, DevState::Lost);
    let back = vec![dev(1, "Knuckles Left", "L", Some(true), Some((true, true)))];
    let v = poll_batteries(&back, Some(1), None, &mut timers, 12_000);
    assert_eq!(v[0].state, DevState::Live);
    assert!(timers.entries.is_empty());
    assert_eq!(DevState::default(), DevState::Live);
}

#[test]
fn glove_roles_follow_the_device_names() {
    let names = vec![(0, "HMD".to_string()), (3, "UDCAP Glove".to_string()), (3, "later".to_string()), (4, "Index".to_string())];
    assert!(role_glove(&names, Some(3)));
    assert!(!role_glove(&names, Some(4)));
    assert!(!role_glove(&names, Some(9)));
    assert!(!role_glove(&names, None));
}

#[test]
fn the_link_reapplies_the_offset_and_forgets_frozen_clients_on_restart() {
    let mut st: LinkState<(i32, i32)> = LinkState::new();
    assert_eq!(st.on_connect(), vec![]);
    assert_eq!(st.on_cmd(LinkCmd::Recenter), vec![LinkAction::RecenterSpaces]);
    assert_eq!(st.on_cmd(LinkCmd::SetOrigin((10, -20))), vec![LinkAction::ApplyOrigin((10, -20))]);
    assert_eq!(st.on_cmd(LinkCmd::Recenter), vec![LinkAction::RecenterSpaces, LinkAction::ApplyOrigin((10, -20))]);
    assert_eq!(st.on_cmd(LinkCmd::SetHoldPose(true)), vec![LinkAction::ApplyHold(true)]);
    assert_eq!(st.on_cmd(LinkCmd::SetBlock(true)), vec![LinkAction::ApplyBlock(true)]);
    assert_eq!(
        st.on_cmd(LinkCmd::SetFreeze { client_id: 7, freeze: true }),
        vec![LinkAction::ApplyFreeze(7, true), LinkAction::RefreshClients]
    );
    st.on_cmd(LinkCmd::SetFreeze { client_id: 7, freeze: true });
    st.on_cmd(LinkCmd::SetFreeze { client_id: 9, freeze: true });
    assert!(st.is_frozen(7) && st.is_frozen(9) && !st.is_frozen(8));
    assert_eq!(st.frozen.len(), 2);
    st.on_cmd(LinkCmd::SetFreeze { client_id: 7, freeze: false });
    assert!(!st.is_frozen(7) && st.is_frozen(9));
    assert_eq!(
        st.on_cmd(LinkCmd::SetPrimary { client_id: 9 }),
        vec![LinkAction::ApplyPrimary(9), LinkAction::RefreshClients]
    );
    st.on_disconnect();
    assert!(!st.is_frozen(9));
    assert_eq!(st.on_connect(), vec![LinkAction::ApplyOrigin((10, -20)), LinkAction::ApplyHold(true)]);
}
