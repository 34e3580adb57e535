//! The patterns of the files that the client watches for the server.

use vstd::prelude::*;

verus! {

/// What a build writes for the index.
pub const SEMANTICDB: &'static str = "**/*.semanticdb";

/// The configuration file of the workspace.
pub const CONFIG: &'static str = "**/.scala3-bsp-semantic-ls/config.json";

/// The connection files of build servers.
pub const BSP: &'static str = "**/.bsp/*.json";

/// The patterns, in the order in which they are registered.
pub fn all() -> (globs: [&'static str; 3])
    ensures
        globs@ == seq![SEMANTICDB, CONFIG, BSP],
{
    let globs = [SEMANTICDB, CONFIG, BSP];
    assert(globs@ =~= seq![SEMANTICDB, CONFIG, BSP]);
    globs
}

} // verus!
