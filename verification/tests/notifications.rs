use base64::Engine;
use monadeck_overlay::notifications::{
    allowed, card_title, chip_icon, data_roots, icon_from_bytes, icon_plan, xso_icon, IconRequest, RgbaPixels, decode_icon_bytes, desktop_file_name, desktop_title, entry_icon, icon_source, image_data, is_svg,
    strip_markup, xso_icon_text, xso_toast, IconCache, IconSource, Source,
};

#[test]
fn markup_is_stripped() {
    assert_eq!(strip_markup("<b>hi</b> &amp; <a href='x'>there</a>"), "hi & there");
}

#[test]
fn entities_decode_once_in_order() {
    assert_eq!(strip_markup("a &lt;b&gt; &quot;c&quot;"), "a <b> \"c\"");
    // `&amp;lt;` becomes `&lt;`, not `<`: each entity is replaced once.
    assert_eq!(strip_markup("&amp;lt;"), "&lt;");
    // An unclosed tag swallows the rest.
    assert_eq!(strip_markup("ok <i never closed"), "ok ");
}

fn px(w: usize, h: usize, ch: usize, stride: usize) -> Vec<u8> {
    let mut data = vec![0u8; stride * h];
    for y in 0..h {
        for x in 0..w {
            let i = y * stride + x * ch;
            data[i] = 200;
            data[i + 1] = 30;
            data[i + 2] = 30;
            if ch == 4 {
                data[i + 3] = 255;
            }
        }
    }
    data
}

#[test]
fn image_data_decodes_rgb_and_rgba() {
    let rgb = image_data(4, 3, 16, false, 8, 3, &px(4, 3, 3, 16)).unwrap();
    assert_eq!((rgb.width, rgb.height), (4, 3));
    assert_eq!(&rgb.rgba[0..4], &[200, 30, 30, 255]);
    let rgba = image_data(2, 2, 8, true, 8, 4, &px(2, 2, 4, 8)).unwrap();
    assert_eq!(rgba.rgba[3 * 4 + 3], 255);
    // Not an image: wrong sample size, channel count, or too little data.
    assert!(image_data(4, 3, 16, false, 16, 3, &px(4, 3, 3, 16)).is_none());
    assert!(image_data(4, 3, 16, false, 8, 2, &px(4, 3, 3, 16)).is_none());
    assert!(image_data(4, 3, 16, false, 8, 3, &[0u8; 10]).is_none());
    assert!(image_data(0, 3, 16, false, 8, 3, &px(4, 3, 3, 16)).is_none());
    assert!(image_data(2000, 1, 8000, false, 8, 4, &vec![0u8; 8000]).is_none());
    // Two rows with a stride reaching back past a whole row: refused.
    assert!(image_data(2, 2, -100, false, 8, 3, &vec![0u8; 400]).is_none());
    // One row: the stride is never used.
    assert!(image_data(2, 1, -100, false, 8, 3, &vec![0u8; 6]).is_some());
}

#[test]
fn alpha_needs_four_channels_and_the_flag() {
    let mut data = px(1, 1, 4, 4);
    data[3] = 7;
    assert_eq!(image_data(1, 1, 4, true, 8, 4, &data).unwrap().rgba, vec![200, 30, 30, 7]);
    assert_eq!(image_data(1, 1, 4, false, 8, 4, &data).unwrap().rgba, vec![200, 30, 30, 255]);
}

#[test]
fn icon_specs() {
    assert!(icon_source("").is_none());
    assert!(icon_source("   ").is_none());
    assert!(icon_source("../etc/passwd").is_none());
    assert_eq!(icon_source("/definitely/not/here.png"), Some(IconSource::File("/definitely/not/here.png".into())));
    assert_eq!(icon_source(" file:///usr/share/a.png "), Some(IconSource::File("/usr/share/a.png".into())));
    assert_eq!(icon_source("firefox.png"), Some(IconSource::Theme("firefox".into())));
    assert_eq!(icon_source("org.kde.konsole"), Some(IconSource::Theme("org.kde.konsole".into())));
    assert!(is_svg("/x/icon.SVG"));
    assert!(!is_svg("/x/.svg"));
    assert!(!is_svg("/x/icon.png"));
    assert!(is_svg("/x/icon.svg/"));
    let roots = vec!["/usr/share".to_string()];
    assert!(icon_candidates("../etc/passwd", &roots).is_empty());
    assert!(icon_candidates("", &roots).is_empty());
    assert!(!icon_candidates("firefox", &roots).is_empty());
}

#[test]
fn desktop_entry_icons() {
    let txt = "[Other]\nIcon=wrong\n[Desktop Entry]\nName=Foo\r\n  Icon= foo-icon \nIcon=second\n";
    assert_eq!(entry_icon(txt), Some("foo-icon".to_string()));
    assert_eq!(entry_icon("Icon=loose\n"), None);
    assert_eq!(desktop_file_name("org.foo.Bar"), Some("org.foo.Bar.desktop".to_string()));
    assert_eq!(desktop_file_name("bar.desktop"), Some("bar.desktop".to_string()));
    assert_eq!(desktop_file_name("../x"), None);
}

#[test]
fn data_roots_user_first() {
    let r = data_roots("/home/u", Some("/a::/b"));
    assert_eq!(
        r,
        vec![
            "/home/u/.local/share",
            "/home/u/.local/share/flatpak/exports/share",
            "/var/lib/flatpak/exports/share",
            "/a",
            "/b",
            "/usr/local/share",
            "/usr/share",
        ]
    );
    assert_eq!(data_roots("", None).len(), 5);
}

#[test]
fn cache_keeps_the_latest_32() {
    let mut c: IconCache<u32> = IconCache::new();
    for i in 0..40u32 {
        assert_eq!(c.get(&format!("k{i}"), || Some(i)), Some(i));
    }
    assert_eq!(c.entries.len(), 32);
    // A hit doesn't load again.
    assert_eq!(c.get("k39", || panic!("cached")), Some(39));
    assert_eq!(c.lookup("k0"), None);
    assert_eq!(c.lookup("k8"), Some(0));
}

#[test]
fn titles_and_xso_messages() {
    assert_eq!(desktop_title("Discord", ""), "Discord");
    assert_eq!(desktop_title("Discord", "New message"), "New message");
    assert!(xso_toast(2, None, None, None).is_none());
    let t = xso_toast(1, None, Some("body".into()), None).unwrap();
    assert_eq!((t.app.as_str(), t.title.as_str(), t.body.as_str()), ("XSOverlay", "XSOverlay", "body"));
    assert_eq!(xso_icon_text(None, Some("abc".into())), None);
    assert_eq!(xso_icon_text(Some(true), Some("abc".into())), Some("abc".to_string()));
}

#[test]
fn base64_icons_decode() {
    assert_eq!(decode_icon_bytes(" aGk= "), Some(b"hi".to_vec()));
    assert_eq!(decode_icon_bytes("aGk"), None);
}

use monadeck_overlay::notifications::{icon_candidates, notify_timeout_ms};

#[test]
fn desktop_notifications_keep_their_expiry_within_bounds() {
    assert_eq!(notify_timeout_ms(0), 5000);
    assert_eq!(notify_timeout_ms(-1), 5000);
    assert_eq!(notify_timeout_ms(500), 2000);
    assert_eq!(notify_timeout_ms(7000), 7000);
    assert_eq!(notify_timeout_ms(60000), 15000);
}

#[test]
fn theme_icons_are_looked_for_size_by_size() {
    let roots = vec!["/u".to_string(), "/s".to_string()];
    let c = icon_candidates("firefox", &roots);
    assert_eq!(c.len(), 8 * 2 * 4 + 2 * 2);
    assert_eq!(c[0], "/u/icons/hicolor/64x64/apps/firefox.png");
    assert_eq!(c[1], "/u/icons/hicolor/64x64/status/firefox.png");
    assert_eq!(c[4], "/s/icons/hicolor/64x64/apps/firefox.png");
    assert_eq!(c[8], "/u/icons/hicolor/48x48/apps/firefox.png");
    assert_eq!(c[64], "/u/pixmaps/firefox.png");
    assert_eq!(c[67], "/s/icons/firefox.png");
    assert!(icon_candidates("a/b", &roots).is_empty());
    assert!(icon_candidates("", &roots).is_empty());
}

#[test]
fn each_source_has_its_own_switch_and_cards_name_the_app() {
    assert!(allowed(Source::Desktop, true, false));
    assert!(!allowed(Source::XsOverlay, true, false));
    assert!(allowed(Source::XsOverlay, false, true));
    assert!(!allowed(Source::Desktop, false, true));
    assert_eq!(card_title("Discord", "New message"), "Discord · New message");
    assert_eq!(card_title("", "New message"), "New message");
    assert_eq!(card_title("Updates", "Updates"), "Updates");
}

fn png(w: u32, h: u32) -> Vec<u8> {
    let img = image::RgbaImage::from_fn(w, h, |x, y| image::Rgba([x as u8, y as u8, 7, 255]));
    let mut out = std::io::Cursor::new(Vec::new());
    img.write_to(&mut out, image::ImageFormat::Png).unwrap();
    out.into_inner()
}

#[test]
fn icons_decode_and_shrink_to_chip_size_but_never_grow() {
    let small = icon_from_bytes(&png(3, 2)).unwrap();
    assert_eq!((small.width, small.height), (3, 2));
    assert_eq!(&small.rgba[0..8], &[0, 0, 7, 255, 1, 0, 7, 255]);
    let big = icon_from_bytes(&png(128, 64)).unwrap();
    assert_eq!((big.width, big.height), (64, 32));
    assert_eq!(big.rgba.len(), 64 * 32 * 4);
    assert!(icon_from_bytes(b"not a picture").is_none());
    // Already small: handed back as it is.
    let p = RgbaPixels { width: 1, height: 1, rgba: vec![1, 2, 3, 4] };
    assert_eq!(chip_icon(p).unwrap().rgba, vec![1, 2, 3, 4]);
    // Too few bytes for a large size: nothing.
    assert!(chip_icon(RgbaPixels { width: 100, height: 100, rgba: vec![0; 16] }).is_none());
}

#[test]
fn xsoverlay_icons_come_base64_encoded() {
    let b64 = base64::engine::general_purpose::STANDARD.encode(png(2, 2));
    let icon = xso_icon(Some(true), Some(format!(" {b64} "))).unwrap();
    assert_eq!((icon.width, icon.height), (2, 2));
    assert!(xso_icon(Some(false), Some(b64.clone())).is_none());
    assert!(xso_icon(None, Some(b64)).is_none());
    assert!(xso_icon(Some(true), Some("@@@".into())).is_none());
}

#[test]
fn icons_are_looked_for_in_the_spec_order() {
    let plan = icon_plan(true, Some("/tmp/a.png".into()), "firefox", Some("org.kde.konsole".into()));
    assert_eq!(plan.len(), 4);
    assert!(matches!(&plan[0], IconRequest::ImageData));
    assert!(matches!(&plan[1], IconRequest::Spec(s) if s == "/tmp/a.png"));
    assert!(matches!(&plan[2], IconRequest::Spec(s) if s == "firefox"));
    assert!(matches!(&plan[3], IconRequest::Entry { key, id } if key == "desktop:org.kde.konsole" && id == "org.kde.konsole"));
    let plan = icon_plan(false, None, "  ", None);
    assert!(plan.is_empty());
}
