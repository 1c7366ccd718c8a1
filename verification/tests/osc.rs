use monadeck_overlay::osc::{command, packet_commands, parse_message, parse_packet, read_str, Arg, Cmd};

fn msg(addr: &str, tags: &str, payload: &[u8]) -> Vec<u8> {
    let mut v = Vec::new();
    let pad = |v: &mut Vec<u8>, s: &str| {
        v.extend_from_slice(s.as_bytes());
        v.push(0);
        while v.len() % 4 != 0 {
            v.push(0);
        }
    };
    pad(&mut v, addr);
    if !tags.is_empty() {
        pad(&mut v, tags);
    }
    v.extend_from_slice(payload);
    v
}

#[test]
fn parses_typed_arguments() {
    let m = msg("/monadeck/watch", ",T", &[]);
    assert_eq!(parse_packet(&m), vec![("/monadeck/watch".to_string(), vec![Arg::Bool(true)])]);
    let m = msg("/avatar/parameters/MonadeckWatchMini", ",f", &0.75f32.to_be_bytes());
    assert_eq!(parse_packet(&m)[0].1, vec![Arg::Float32(0.75f32.to_bits())]);
    let mut body = Vec::new();
    body.extend_from_slice(b"hi\0\0");
    body.extend_from_slice(b"there\0\0\0");
    let m = msg("/monadeck/notify", ",ss", &body);
    assert_eq!(parse_packet(&m)[0].1, vec![Arg::Str("hi".into()), Arg::Str("there".into())]);
    // Bare address, no type tags.
    assert_eq!(parse_packet(&msg("/monadeck/dashboard", "", &[]))[0].1, vec![]);
}

#[test]
fn parses_bundles() {
    let a = msg("/monadeck/watch", ",i", &1i32.to_be_bytes());
    let b = msg("/monadeck/screens", "", &[]);
    let mut v = b"#bundle\0".to_vec();
    v.extend_from_slice(&[0, 0, 0, 0, 0, 0, 0, 1]);
    for m in [&a, &b] {
        v.extend_from_slice(&(m.len() as u32).to_be_bytes());
        v.extend_from_slice(m);
    }
    let got = parse_packet(&v);
    assert_eq!(got.len(), 2);
    assert_eq!(got[0].0, "/monadeck/watch");
    assert_eq!(got[1].0, "/monadeck/screens");
}

#[test]
fn maps_addresses_and_avatar_parameters() {
    assert_eq!(command("/monadeck/watch", &[]), Some(Cmd::Watch(None)));
    assert_eq!(command("/monadeck/watch", &[Arg::Int(0)]), Some(Cmd::Watch(Some(false))));
    assert_eq!(command("/monadeck/watch/mini", &[Arg::Bool(true)]), Some(Cmd::WatchMini(Some(true))));
    assert_eq!(command("/avatar/parameters/MonadeckWatch", &[Arg::Bool(true)]), Some(Cmd::Watch(Some(true))));
    assert_eq!(
        command("/avatar/parameters/Monadeck/Watch_Mini", &[Arg::Float64(1.0f64.to_bits())]),
        Some(Cmd::WatchMini(Some(true)))
    );
    assert_eq!(
        command("/avatar/parameters/monadeck_dashboard", &[Arg::Float64(0.0f64.to_bits())]),
        Some(Cmd::Dashboard(Some(false)))
    );
    assert_eq!(command("/avatar/parameters/SomethingElse", &[Arg::Bool(true)]), None);
    assert_eq!(command("/monadeck/nope", &[]), None);
    assert_eq!(
        command("/monadeck/notify", &[Arg::Str("Raid".into()), Arg::Str("starting now".into())]),
        Some(Cmd::Notify { title: "Raid".into(), body: "starting now".into() })
    );
    assert_eq!(command("/monadeck/notify", &[]), None);
}

#[test]
fn truncated_packets_are_dropped() {
    let m = msg("/monadeck/watch", ",i", &[0, 0]);
    assert!(parse_packet(&m).is_empty());
    assert!(parse_packet(b"no-nul-terminator").is_empty());
}

#[test]
fn nested_bundles_are_flattened() {
    let inner_msg = msg("/monadeck/keyboard", ",F", &[]);
    let mut inner = b"#bundle\0".to_vec();
    inner.extend_from_slice(&[0; 8]);
    inner.extend_from_slice(&(inner_msg.len() as u32).to_be_bytes());
    inner.extend_from_slice(&inner_msg);
    let outer_msg = msg("/monadeck/watch", ",T", &[]);
    let mut v = b"#bundle\0".to_vec();
    v.extend_from_slice(&[0; 8]);
    for m in [&inner, &outer_msg] {
        v.extend_from_slice(&(m.len() as u32).to_be_bytes());
        v.extend_from_slice(m);
    }
    assert_eq!(packet_commands(&v), vec![Cmd::Keyboard(Some(false)), Cmd::Watch(Some(true))]);
}

#[test]
fn bundle_stops_at_an_overrunning_element() {
    let a = msg("/monadeck/watch", "", &[]);
    let mut v = b"#bundle\0".to_vec();
    v.extend_from_slice(&[0; 8]);
    v.extend_from_slice(&(a.len() as u32).to_be_bytes());
    v.extend_from_slice(&a);
    v.extend_from_slice(&1000u32.to_be_bytes());
    v.extend_from_slice(&a);
    assert_eq!(parse_packet(&v).len(), 1);
    // A zero-length element ends the bundle too.
    let mut z = b"#bundle\0".to_vec();
    z.extend_from_slice(&[0; 8]);
    z.extend_from_slice(&0u32.to_be_bytes());
    z.extend_from_slice(&(a.len() as u32).to_be_bytes());
    z.extend_from_slice(&a);
    assert!(parse_packet(&z).is_empty());
}

#[test]
fn every_numeric_tag_decodes_big_endian() {
    let mut p = Vec::new();
    p.extend_from_slice(&(-2i32).to_be_bytes());
    p.extend_from_slice(&(-5i64).to_be_bytes());
    p.extend_from_slice(&2.5f64.to_be_bytes());
    p.extend_from_slice(&[0, 0, 0, 3, 9, 9, 9, 0]); // blob of 3, padded
    p.extend_from_slice(&[1; 8]); // time tag
    p.extend_from_slice(&[2; 4]); // char
    let m = msg("/x", ",ihdbtcNIF", &p);
    let (addr, args) = parse_message(&m).unwrap();
    assert_eq!(addr, "/x");
    assert_eq!(
        args,
        vec![Arg::Int(-2), Arg::Int(-5), Arg::Float64(2.5f64.to_bits()), Arg::Nil, Arg::Int(1), Arg::Bool(false)]
    );
    // Unknown tags reject the message; an address must start with '/'.
    assert!(parse_message(&msg("/x", ",q", &[])).is_none());
    assert!(parse_message(&msg("x", "", &[])).is_none());
}

#[test]
fn strings_are_padded_to_four_bytes() {
    assert_eq!(read_str(b"abc\0rest", 0), Some(("abc".to_string(), 4)));
    assert_eq!(read_str(b"abcd\0\0\0\0x", 0), Some(("abcd".to_string(), 8)));
    // The offset never passes the end of the buffer.
    assert_eq!(read_str(b"abcd\0", 0), Some(("abcd".to_string(), 5)));
    assert_eq!(read_str(b"\xff\0\0\0", 0), None);
    assert_eq!(read_str(b"ab", 3), None);
}

#[test]
fn switch_words_and_floats() {
    assert_eq!(Arg::Str("Show".into()).as_bool(), Some(true));
    assert_eq!(Arg::Str("OFF".into()).as_bool(), Some(false));
    assert_eq!(Arg::Str("maybe".into()).as_bool(), None);
    assert_eq!(Arg::Float32(0.5f32.to_bits()).as_bool(), Some(false));
    assert_eq!(Arg::Float32(0.51f32.to_bits()).as_bool(), Some(true));
    assert_eq!(Arg::Float32(f32::NAN.to_bits()).as_bool(), Some(false));
    assert_eq!(Arg::Float32(f32::INFINITY.to_bits()).as_bool(), Some(true));
    assert_eq!(Arg::Float64((-3.0f64).to_bits()).as_bool(), Some(false));
    assert_eq!(Arg::Nil.as_bool(), None);
    assert_eq!(
        command("/monadeck/toast", &[Arg::Int(3), Arg::Str("  ".into()), Arg::Str(" Hi ".into())]),
        Some(Cmd::Notify { title: "Hi".into(), body: "".into() })
    );
}
