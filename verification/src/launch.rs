//! The `app` alias: a native backend like `cd` that launches an installed
//! application by name instead of running a shell command.

pub mod desktop;
pub mod pinyin;

use vstd::prelude::*;

use crate::alias::{AliasDef, AliasView};
use crate::shortcuts::ShortcutMap;
use crate::text::{eq_str, owned, trim, trim_seq};

verus! {

/// Marker template handled by the application launcher instead of the shell.
pub const TEMPLATE: &'static str = "@native app";

/// True when an alias template selects the application launcher: the
/// template, trimmed, is exactly [`TEMPLATE`].
pub fn is_native(template: &str) -> (r: bool)
    ensures
        r <==> trim_seq(template@) == TEMPLATE@,
{
    let t = trim(template);
    eq_str(t.as_str(), TEMPLATE)
}

/// The seeded `app` alias: no triggers, no shortcuts, the launcher on both
/// platforms (its input is the application name).
pub open spec fn app_view() -> AliasView {
    AliasView {
        name: "app"@,
        triggers: Seq::empty(),
        linux: Some(TEMPLATE@),
        macos: Some(TEMPLATE@),
        shortcuts: Map::empty(),
    }
}

/// The seeded `app` alias definition.
pub fn default_def() -> (d: AliasDef)
    ensures
        d@ == app_view(),
{
    let d = AliasDef {
        name: owned("app"),
        triggers: Vec::new(),
        linux: Some(owned(TEMPLATE)),
        macos: Some(owned(TEMPLATE)),
        shortcuts: ShortcutMap::new(),
    };
    assert(crate::text::views(d.triggers@) =~= Seq::<Seq<char>>::empty());
    d
}

} // verus!
