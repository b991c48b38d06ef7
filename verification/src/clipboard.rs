//! The native clipboard backend's markers: alias templates equal to
//! [`TEMPLATE`] are served by the built-in clipboard instead of `sh -c`.

use vstd::prelude::*;

use crate::text::{is_blank, trim, trim_seq, cat2, cat3};

verus! {

/// Marker template handled by the native clipboard instead of the shell.
pub const TEMPLATE: &'static str = "@native clipboard";

/// Hidden argv flag of the detached clipboard server child.
pub const SERVE_FLAG: &'static str = "--internal-clipboard-serve";

/// True when an alias template selects the native clipboard backend: the
/// template, trimmed, is exactly [`TEMPLATE`].
pub fn is_native(template: &str) -> (r: bool)
    ensures
        r <==> trim_seq(template@) == TEMPLATE@,
{
    let t = trim(template);
    crate::text::eq_str(t.as_str(), TEMPLATE)
}

/// The status-line text for a clipboard failure: the error behind a
/// `clipboard:` prefix, plus a hint when no display is reachable at all.
pub fn describe(err: &str, headless: bool) -> (r: String)
    ensures
        r@ == if headless {
            "clipboard: "@ + err@ + HEADLESS_HINT@
        } else {
            "clipboard: "@ + err@
        },
{
    if headless {
        cat3("clipboard: ", err, HEADLESS_HINT)
    } else {
        cat2("clipboard: ", err)
    }
}

/// Hint appended when neither X11 nor Wayland is reachable.
pub const HEADLESS_HINT: &'static str = " (no display found; X11/XWayland required, or override with `:add cd <cmd>`)";

} // verus!
