//! The commands that the server executes.

use vstd::prelude::*;
use vstd::string::*;

use crate::text;

verus! {

/// Reports on the state of the server.
pub const DOCTOR: &'static str = "scala3SemanticLs.doctor";

/// Reads the index anew.
pub const REINDEX: &'static str = "scala3SemanticLs.reindex";

/// Compiles the workspace.
pub const COMPILE: &'static str = "scala3SemanticLs.compile";

/// Reports on the plugins of the presentation compiler.
pub const PC_PLUGIN_STATUS: &'static str = "scala3SemanticLs.pcPluginStatus";

/// The commands, in the order in which the client sees them.
pub open spec fn names() -> Seq<Seq<char>> {
    seq![DOCTOR@, REINDEX@, COMPILE@, PC_PLUGIN_STATUS@]
}

/// The commands, in the order in which the client sees them.
pub fn all() -> (list: Vec<String>)
    ensures
        text::texts(list@) == names(),
{
    let list = vec![
        DOCTOR.to_owned(),
        REINDEX.to_owned(),
        COMPILE.to_owned(),
        PC_PLUGIN_STATUS.to_owned(),
    ];
    assert(text::texts(list@) =~= names());
    list
}

} // verus!
