//! The platforms xconsoler distinguishes when picking alias commands.

use vstd::prelude::*;

verus! {

/// Which of an alias's two commands applies.
#[derive(Debug, Clone, Copy, PartialEq, Eq, Structural)]
pub enum Platform {
    Linux,
    Macos,
}

/// Stable lowercase name of a platform.
pub open spec fn platform_name(p: Platform) -> Seq<char> {
    match p {
        Platform::Linux => "linux"@,
        Platform::Macos => "macos"@,
    }
}

/// Stable lowercase name used in messages and `no command configured for ...`.
pub fn name(p: Platform) -> (r: &'static str)
    ensures
        r@ == platform_name(p),
{
    match p {
        Platform::Linux => "linux",
        Platform::Macos => "macos",
    }
}

} // verus!
