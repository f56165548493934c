//! Build identity: the release version and the revision line reported by
//! `--version` and the `iiif_build_info` metric.

use vstd::prelude::*;
use crate::grammar::push_str;

verus! {

/// Release version — the single source, reported by `--version` and by the
/// `iiif_build_info` metric.
pub const VERSION: &'static str = "0.2.1";

/// The revision of a build made outside the release pipeline, which knows
/// no commit: `unknown`. Release builds inject the commit at build time.
pub const REVISION: &'static str = "unknown";

/// The `--version` line for a build of `revision`.
pub open spec fn version_text(revision: Seq<char>) -> Seq<char> {
    if revision == "unknown"@ {
        "iiif-server "@ + VERSION@
    } else {
        "iiif-server "@ + VERSION@ + " ("@ + revision + ")"@
    }
}

/// `iiif-server --version` for a build of `revision`: the version, plus the
/// revision when one is known.
pub fn version_line_for(revision: &str) -> (s: String)
    ensures
        s@ == version_text(revision@),
{
    let mut s = String::new();
    push_str(&mut s, "iiif-server ");
    push_str(&mut s, VERSION);
    if crate::text::str_eq(revision, "unknown") {
        return s;
    }
    push_str(&mut s, " (");
    push_str(&mut s, revision);
    push_str(&mut s, ")");
    assert(s@ =~= version_text(revision@));
    s
}

/// `iiif-server --version` for a build outside the release pipeline.
pub fn version_line() -> (s: String)
    ensures
        s@ == version_text(REVISION@),
{
    version_line_for(REVISION)
}

} // verus!
