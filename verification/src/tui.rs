//! The decisions of the `top` view: how a state is coloured, how long the
//! agent has been up, and which keys quit.  Drawing and key handling live in the application.

use crate::text::str_eq;
use vstd::prelude::*;

verus! {

/// The colour the `top` view gives an agent's state.
pub enum StateColor {
    Green,
    Yellow,
    Red,
    White,
}

/// `running` is green, `starting` yellow, `stopping` red, anything else white.
pub fn state_color(state: &str) -> (c: StateColor)
    ensures
        c == if state@ == "running"@ {
            StateColor::Green
        } else if state@ == "starting"@ {
            StateColor::Yellow
        } else if state@ == "stopping"@ {
            StateColor::Red
        } else {
            StateColor::White
        },
{
    if str_eq(state, "running") {
        StateColor::Green
    } else if str_eq(state, "starting") {
        StateColor::Yellow
    } else if str_eq(state, "stopping") {
        StateColor::Red
    } else {
        StateColor::White
    }
}

/// Seconds since `since_unix` at `now_unix`, saturating at the bounds of `i64`.
pub fn uptime_secs(now_unix: i64, since_unix: i64) -> (u: i64)
    ensures
        u == if now_unix - since_unix > i64::MAX {
            i64::MAX as int
        } else if now_unix - since_unix < i64::MIN {
            i64::MIN as int
        } else {
            now_unix - since_unix
        },
{
    let d: i128 = now_unix as i128 - since_unix as i128;
    if d > i64::MAX as i128 {
        i64::MAX
    } else if d < i64::MIN as i128 {
        i64::MIN
    } else {
        d as i64
    }
}

/// The keys the `top` view tells apart.
pub enum KeyView {
    Q,
    Esc,
    CtrlC,
    Other,
}

/// The view quits on a press of `q`, Esc or Ctrl+C.
pub fn quits(is_press: bool, key: KeyView) -> (q: bool)
    ensures
        q == (is_press && (key == KeyView::Q || key == KeyView::Esc || key == KeyView::CtrlC)),
{
    is_press && match key {
        KeyView::Q => true,
        KeyView::Esc => true,
        KeyView::CtrlC => true,
        KeyView::Other => false,
    }
}

} // verus!
