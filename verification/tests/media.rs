use monadeck_overlay::media::{choose_player, is_player, mpris_players, now_playing, MediaCmd};

fn s(v: &[&str]) -> Vec<String> {
    v.iter().map(|x| x.to_string()).collect()
}

#[test]
fn only_real_players_are_followed() {
    let names = s(&[
        "org.freedesktop.DBus",
        "org.mpris.MediaPlayer2.spotify",
        "org.mpris.MediaPlayer2.playerctld",
        "org.mpris.MediaPlayer2.firefox.instance_1_2",
        "org.mpris.MediaPlayer2",
    ]);
    assert_eq!(mpris_players(&names), s(&["org.mpris.MediaPlayer2.spotify", "org.mpris.MediaPlayer2.firefox.instance_1_2"]));
    assert!(!is_player("org.mpris.MediaPlayer2"));
}

#[test]
fn a_playing_player_wins_else_the_one_followed_before() {
    let ps = s(&["a", "b", "c"]);
    assert_eq!(choose_player(&ps, &s(&["Paused", "Playing", "Playing"]), &None), Some(1));
    assert_eq!(choose_player(&ps, &s(&["Paused", "Stopped", "Paused"]), &Some("c".into())), Some(2));
    assert_eq!(choose_player(&ps, &s(&["Paused", "Stopped", "Paused"]), &Some("zz".into())), Some(0));
    assert_eq!(choose_player(&ps, &s(&["Paused", "Stopped", "Playing"]), &Some("b".into())), Some(2));
    assert_eq!(choose_player(&Vec::new(), &Vec::new(), &Some("b".into())), None);
}

#[test]
fn now_playing_fills_in_what_is_missing() {
    let m = now_playing("org.mpris.MediaPlayer2.vlc", None, Some("Song".into()), Some(s(&["A", "B"])), "Playing");
    assert_eq!(m.player, "org.mpris.MediaPlayer2.vlc");
    assert_eq!(m.title, "Song");
    assert_eq!(m.artist, "A, B");
    assert!(m.playing);
    let m = now_playing("x", Some("VLC".into()), None, None, "Paused");
    assert_eq!((m.player.as_str(), m.title.as_str(), m.artist.as_str(), m.playing), ("VLC", "", "", false));
}

#[test]
fn commands_name_their_mpris_methods() {
    assert_eq!(MediaCmd::PlayPause.method(), "PlayPause");
    assert_eq!(MediaCmd::Next.method(), "Next");
    assert_eq!(MediaCmd::Previous.method(), "Previous");
}
