use monadeck_overlay::games::{
    evict, launch_id, launch_status, launch_uri, name_matches, recency_order, resort_recency, stop_pattern, user_meta,
    want_art, ArtKind, ArtState,
};

#[test]
fn art_is_requested_once_and_missing_ids_are_marked() {
    let mut slot: ArtState<u8> = ArtState::Idle;
    assert_eq!(want_art(&mut slot, &Some("440".into())), Some("440".to_string()));
    assert!(matches!(slot, ArtState::Pending));
    assert_eq!(want_art(&mut slot, &Some("440".into())), None);
    let mut slot: ArtState<u8> = ArtState::Idle;
    assert_eq!(want_art(&mut slot, &None), None);
    assert!(matches!(slot, ArtState::Missing));
    assert_eq!(ArtKind::Hero.max_size(), (900, 360));
}

#[test]
fn running_apps_match_games_by_name() {
    assert!(name_matches("Beat Saber", "beat saber"));
    assert!(name_matches("Half-Life: Alyx", "half-life"));
    assert!(name_matches("VRChat", "VRChat Beta Client"));
    assert!(!name_matches("", "x"));
    assert!(!name_matches("Stray", "Hades"));
}

#[test]
fn stop_patterns_keep_safe_characters() {
    assert_eq!(stop_pattern("  Beat*Saber!  "), Some("BeatSaber".to_string()));
    assert_eq!(stop_pattern("a$b"), None);
    assert_eq!(stop_pattern("é!"), None);
    assert_eq!(stop_pattern("東方"), Some("東方".to_string()));
}

#[test]
fn launch_ids_and_uris() {
    assert_eq!(launch_id(&Some("620".into()), &Some("1".into())), Some("620".to_string()));
    assert_eq!(launch_id(&None, &Some("3968468407".into())), Some(((3968468407u64 << 32) | 0x0200_0000).to_string()));
    assert_eq!(launch_id(&None, &Some("+7".into())), Some(((7u64 << 32) | 0x0200_0000).to_string()));
    assert_eq!(launch_id(&None, &Some("x7".into())), None);
    assert_eq!(launch_id(&None, &None), None);
    assert_eq!(launch_uri("620"), "steam://rungameid/620");
    assert_eq!(launch_status(true, 1501), "Waiting for VR Mod injection…");
    assert_eq!(launch_status(true, 1500), "Starting…");
    assert_eq!(launch_status(false, 9000), "Starting…");
}

#[test]
fn the_catalogue_sorts_by_recency_then_name_stably() {
    let rows = vec![
        (Some(10), "beta".to_string()),
        (None, "Zed".to_string()),
        (Some(30), "alpha".to_string()),
        (Some(10), "Alpha".to_string()),
        (Some(10), "alpha".to_string()),
        (Some(0), "aaa".to_string()),
    ];
    assert_eq!(recency_order(&rows), vec![2, 3, 4, 0, 5, 1]);
    let mut games = vec!["b", "z", "a30", "A", "a", "aaa"];
    let sel = resort_recency(&mut games, &rows, Some(0));
    assert_eq!(games, vec!["a30", "A", "a", "b", "aaa", "z"]);
    assert_eq!(sel, Some(3));
    // The selection follows the entry itself, with or without an art id.
    let mut games2 = vec![1, 2, 3, 4, 5, 6];
    assert_eq!(resort_recency(&mut games2, &rows, Some(1)), Some(5));
    assert_eq!(games2[5], 2);
    let mut games3 = vec![1, 2, 3, 4, 5, 6];
    assert_eq!(resort_recency(&mut games3, &rows, Some(6)), None);
    assert_eq!(resort_recency(&mut games3, &rows, None), None);
}

#[test]
fn user_metadata_is_keyed_by_art_id() {
    let favs = vec!["620".to_string()];
    let uevr = vec!["9".to_string()];
    let cols = vec![vec!["1".to_string()], vec!["620".to_string(), "2".to_string()], vec!["620".to_string()]];
    let m = user_meta(&Some("620".into()), &favs, &uevr, Some(3599), &cols);
    assert!(m.favorite && !m.uevr);
    assert_eq!(m.tracked_minutes, Some(59));
    assert_eq!(m.collections, vec![1, 2]);
    assert_eq!(user_meta(&Some("9".into()), &favs, &uevr, Some(59), &cols).tracked_minutes, None);
    let none = user_meta(&None, &favs, &uevr, Some(600), &cols);
    assert!(!none.favorite && none.tracked_minutes.is_none() && none.collections.is_empty());
}

#[test]
fn the_coldest_art_past_the_cap_is_let_go_unless_in_use() {
    // Last-used frames of five loaded textures; keep at most two.
    let last = vec![7, 3, 9, 3, 1];
    let in_use = vec![false, false, false, true, false];
    assert_eq!(evict(&last, &in_use, 2), vec![4, 1]);
    assert_eq!(evict(&last, &vec![false; 5], 2), vec![4, 1, 3]);
    assert_eq!(evict(&last, &in_use, 5), Vec::<usize>::new());
    assert_eq!(evict(&vec![], &vec![], 0), Vec::<usize>::new());
}
