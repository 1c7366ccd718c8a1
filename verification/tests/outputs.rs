use monadeck_overlay::outputs::{
    desktop_bounds, list, output_detail, stream_label, stream_output, OutputEvent, OutputInfo, StreamInfo,
};

fn out(name: &str, pos: (i32, i32), size: (i32, i32)) -> OutputInfo {
    OutputInfo { name: name.into(), description: String::new(), logical_pos: pos, logical_size: size, pixel_size: size }
}

#[test]
fn outputs_assemble_from_their_events() {
    let evs = vec![
        (0, OutputEvent::Name("DP-1".into())),
        (0, OutputEvent::Name("ignored".into())),
        (0, OutputEvent::Mode { current: false, width: 1280, height: 720 }),
        (0, OutputEvent::Mode { current: false, width: 640, height: 480 }),
        (0, OutputEvent::Mode { current: true, width: 2560, height: 1440 }),
        (1, OutputEvent::Description("Dell U2720Q".into())),
        (1, OutputEvent::XdgName("DP-3".into())),
        (1, OutputEvent::LogicalPosition(2560, 0)),
        (1, OutputEvent::LogicalSize(1920, 1080)),
        (5, OutputEvent::XdgName("nowhere".into())),
        (0, OutputEvent::XdgDescription("Samsung".into())),
    ];
    let v = list(Ok((2, evs)));
    assert_eq!(v.len(), 2);
    assert_eq!((v[0].name.as_str(), v[0].description.as_str(), v[0].pixel_size), ("DP-1", "Samsung", (2560, 1440)));
    assert_eq!((v[1].name.as_str(), v[1].logical_pos, v[1].logical_size), ("DP-3", (2560, 0), (1920, 1080)));
    assert!(list(Err("no wayland".into())).is_empty());
}

#[test]
fn the_desktop_spans_every_output() {
    assert_eq!(desktop_bounds(&vec![]), ((0, 0), (1, 1)));
    let v = vec![out("a", (0, 0), (2560, 1440)), out("b", (2560, -200), (1920, 1080)), out("c", (-1080, 100), (1080, 1920))];
    assert_eq!(desktop_bounds(&v), ((-1080, -200), (2560 + 1920 + 1080, 2020 + 200)));
}

#[test]
fn settings_rows_describe_each_screen() {
    let mut o = out("DP-3", (0, 0), (2560, 1440));
    assert_eq!(output_detail(&o), "2560×1440");
    o.description = "Samsung Odyssey".into();
    assert_eq!(output_detail(&o), "Samsung Odyssey · 2560×1440");
    o.logical_size = (-5, 0);
    assert_eq!(output_detail(&o), "Samsung Odyssey · -5×0");
}

#[test]
fn streams_find_their_outputs() {
    let outs = vec![out("DP-1", (0, 0), (1920, 1080)), out("DP-3", (1920, 0), (2560, 1440))];
    let by_name = StreamInfo { node_id: 7, position: None, size: None, mapping_id: Some("DP-3".into()) };
    assert_eq!(stream_output(&by_name, &outs, 2), Some(1));
    let by_rect = StreamInfo { node_id: 8, position: Some((0, 0)), size: Some((1920, 1080)), mapping_id: Some("HDMI".into()) };
    assert_eq!(stream_output(&by_rect, &outs, 2), Some(0));
    let lost = StreamInfo { node_id: 9, position: None, size: None, mapping_id: None };
    assert_eq!(stream_output(&lost, &outs, 2), None);
    assert_eq!(stream_output(&lost, &outs[..1].to_vec(), 1), Some(0));
    let (name, detail, rect) = stream_label(&lost, 2);
    assert_eq!((name.as_str(), detail.as_str(), rect), ("Screen 3", "1920×1080", (0, 0, 1920, 1080)));
    let (name, detail, _) = stream_label(&by_rect, 0);
    assert_eq!((name.as_str(), detail.as_str()), ("HDMI", "1920×1080"));
}
