//! Text-field focus on the desktop, from the AT-SPI accessibility bus: which
//! focus changes count, and when a focused widget takes typing, so the VR
//! keyboard can pop up.
use std::sync::mpsc::{Receiver, Sender};
use vstd::prelude::*;

use crate::sync::{channel, drain_all};
use crate::text::{lower, str_eq, unicode_lower};

verus! {

/// A widget gained focus.
pub struct FocusEvent {
    pub role: String,
    pub editable: bool,
    pub app: String,
}

/// The focus events the listener thread has sent, and whether it runs.
pub struct A11y {
    rx: Receiver<FocusEvent>,
    pub ok: bool,
}

impl A11y {
    /// The listener came up (the `ok` flag).
    pub closed spec fn running(&self) -> bool {
        self.ok
    }

    /// Start following focus: `listen` gets the sending end and starts the
    /// bus listener; `ok` says whether it came up.
    pub fn start<F: FnOnce(Sender<FocusEvent>) -> Result<(), String>>(listen: F) -> (r: Self)
        requires
            forall|tx: Sender<FocusEvent>| call_requires(listen, (tx,)),
        ensures
            exists|tx: Sender<FocusEvent>, res: Result<(), String>|
                call_ensures(listen, (tx,), res) && r.running() == (res is Ok),
    {
        let (tx, rx) = channel();
        let res = listen(tx);
        let ok = match res {
            Ok(()) => true,
            Err(_) => false,
        };
        A11y { rx, ok }
    }

    /// Every focus event that has arrived since the last call; what has
    /// arrived is up to the listener thread, so nothing more is stated.
    pub fn drain(&self) -> Vec<FocusEvent> {
        drain_all(&self.rx)
    }
}

/// An AT-SPI `StateChanged` signal that reports focus gained.
pub open spec fn spec_focus_gain(detail: Seq<char>, d1: i32) -> bool {
    detail == "focused"@ && d1 == 1
}

pub fn is_focus_gain(detail: &str, d1: i32) -> (r: bool)
    ensures
        r == spec_focus_gain(detail@, d1),
{
    str_eq(detail, "focused") && d1 == 1
}

/// The AT-SPI `STATE_EDITABLE` bit of the first state word.
pub const STATE_EDITABLE: u32 = 128;

/// Role names (lower case) of widgets that take text.
pub open spec fn is_text_role(r: Seq<char>) -> bool {
    ||| r == "text"@
    ||| r == "entry"@
    ||| r == "password text"@
    ||| r == "terminal"@
    ||| r == "document text"@
    ||| r == "editbar"@
    ||| r == "spin button"@
    ||| r == "paragraph"@
    ||| r == "search box"@
}

pub fn text_role(r: &str) -> (b: bool)
    ensures
        b == is_text_role(r@),
{
    str_eq(r, "text") || str_eq(r, "entry") || str_eq(r, "password text") || str_eq(r, "terminal")
        || str_eq(r, "document text") || str_eq(r, "editbar") || str_eq(r, "spin button")
        || str_eq(r, "paragraph") || str_eq(r, "search box")
}

/// A focused widget takes typing: its state says editable, or its role is
/// a text role.
pub open spec fn spec_editable(role: Seq<char>, state: Seq<u32>) -> bool {
    (state.len() > 0 && state[0] & STATE_EDITABLE != 0) || is_text_role(unicode_lower(role))
}

/// The event for a focused widget with this role name, state words and
/// accessible name.
pub fn focus_event(role: String, state: &Vec<u32>, app: String) -> (r: FocusEvent)
    ensures
        r.role@ == role@,
        r.app@ == app@,
        r.editable == spec_editable(role@, state@),
{
    let by_state = state.len() > 0 && state[0] & STATE_EDITABLE != 0;
    let role_l = lower(role.as_str());
    let editable = by_state || text_role(role_l.as_str());
    FocusEvent { role, editable, app }
}

} // verus!
