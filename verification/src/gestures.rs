//! The finger-frame gesture config the Monado fork's detector hot-reloads
//! (`~/.config/monado/gestures.json`): where it lives and what a saved file
//! sets.
use vstd::prelude::*;

use crate::text::{chars_of, extend_chars, string_of};

verus! {

/// The detector's settings.
#[derive(Clone, Copy, Debug, PartialEq, Eq, Structural)]
pub struct Settings {
    pub enabled: bool,
    pub hold_ms: i32,
    pub frame_feedback: bool,
    pub debug: bool,
}

/// The settings before any file: on, a two-second hold, with feedback.
pub open spec fn defaults() -> Settings {
    Settings { enabled: true, hold_ms: 2000, frame_feedback: true, debug: false }
}

/// The config directory: `$XDG_CONFIG_HOME` when set and not empty, else
/// `$HOME/.config`.
pub open spec fn config_base(xdg: Option<Seq<char>>, home: Option<Seq<char>>) -> Seq<char> {
    let h = match home {
        Some(h) => h,
        None => Seq::empty(),
    };
    match xdg {
        Some(x) => if x.len() > 0 {
            x
        } else {
            h + "/.config"@
        },
        None => h + "/.config"@,
    }
}

/// Where the gesture config lives, given the two environment variables.
pub fn config_path(xdg_config_home: Option<&str>, home: Option<&str>) -> (r: String)
    ensures
        r@ == config_base(
            match xdg_config_home {
                Some(x) => Some(x@),
                None => None,
            },
            match home {
                Some(h) => Some(h@),
                None => None,
            },
        ) + "/monado/gestures.json"@,
{
    let given = match xdg_config_home {
        Some(x) => chars_of(x),
        None => Vec::new(),
    };
    let mut base = if xdg_config_home.is_some() && given.len() > 0 {
        given
    } else {
        let mut b = match home {
            Some(h) => chars_of(h),
            None => Vec::new(),
        };
        let tail = chars_of("/.config");
        extend_chars(&mut b, &tail);
        b
    };
    let rest = chars_of("/monado/gestures.json");
    extend_chars(&mut base, &rest);
    string_of(&base)
}

/// What `serde_json` reads as the boolean at `key` of the JSON object in
/// `text` (`None` when the text is no JSON, not an object, lacks the key, or
/// holds no boolean there).
pub uninterp spec fn json_bool(text: Seq<char>, key: Seq<char>) -> Option<bool>;

/// What `serde_json` reads as the integer (fitting `i64`) at `key` of the
/// JSON object in `text`.
pub uninterp spec fn json_i64(text: Seq<char>, key: Seq<char>) -> Option<i64>;

/// `serde_json::from_str::<Value>`, then `Value::get` and `Value::as_bool`.
#[verifier::external_body]
fn field_bool(text: &str, key: &str) -> (r: Option<bool>)
    ensures
        r == json_bool(text@, key@),
{
    serde_json::from_str::<serde_json::Value>(text).ok().and_then(|v| v.get(key).and_then(|x| x.as_bool()))
}

/// `serde_json::from_str::<Value>`, then `Value::get` and `Value::as_i64`.
#[verifier::external_body]
fn field_i64(text: &str, key: &str) -> (r: Option<i64>)
    ensures
        r == json_i64(text@, key@),
{
    serde_json::from_str::<serde_json::Value>(text).ok().and_then(|v| v.get(key).and_then(|x| x.as_i64()))
}

/// The settings a config file's text sets: each field the file holds with
/// the right type replaces the default (the hold time cut to 32 bits).
pub open spec fn spec_settings(text: Option<Seq<char>>) -> Settings {
    match text {
        None => defaults(),
        Some(t) => Settings {
            enabled: match json_bool(t, "enabled"@) {
                Some(b) => b,
                None => true,
            },
            hold_ms: match json_i64(t, "hold_ms"@) {
                Some(n) => n as i32,
                None => 2000,
            },
            frame_feedback: match json_bool(t, "frame_feedback"@) {
                Some(b) => b,
                None => true,
            },
            debug: match json_bool(t, "debug"@) {
                Some(b) => b,
                None => false,
            },
        },
    }
}

/// The settings from the config file's text (`None`: no readable file).
pub fn parse_settings(text: Option<&str>) -> (r: Settings)
    ensures
        r == spec_settings(
            match text {
                Some(t) => Some(t@),
                None => None,
            },
        ),
{
    let mut s = Settings { enabled: true, hold_ms: 2000, frame_feedback: true, debug: false };
    let t = match text {
        Some(t) => t,
        None => return s,
    };
    match field_bool(t, "enabled") {
        Some(b) => s.enabled = b,
        None => {},
    }
    match field_i64(t, "hold_ms") {
        Some(n) => s.hold_ms = n as i32,
        None => {},
    }
    match field_bool(t, "frame_feedback") {
        Some(b) => s.frame_feedback = b,
        None => {},
    }
    match field_bool(t, "debug") {
        Some(b) => s.debug = b,
        None => {},
    }
    s
}

} // verus!
