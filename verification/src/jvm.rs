//! The record of one discovered Java installation.

use vstd::prelude::*;

verus! {

/// One discovered installation.
#[derive(Debug, PartialEq, Eq)]
pub struct Jvm {
    /// The version as the installation reports it; empty where unknown.
    pub version: String,
    /// The display name; empty where there is none.
    pub name: String,
    /// The CPU architecture, in its canonical spelling.
    pub architecture: String,
    /// The home directory of the installation.
    pub path: String,
}

/// The text of a `Jvm`'s fields.
pub struct JvmView {
    pub version: Seq<char>,
    pub name: Seq<char>,
    pub architecture: Seq<char>,
    pub path: Seq<char>,
}

impl View for Jvm {
    type V = JvmView;

    open spec fn view(&self) -> JvmView {
        JvmView {
            version: self.version@,
            name: self.name@,
            architecture: self.architecture@,
            path: self.path@,
        }
    }
}

impl Clone for Jvm {
    fn clone(&self) -> (r: Self)
        ensures
            r@ == self@,
    {
        Jvm {
            version: self.version.clone(),
            name: self.name.clone(),
            architecture: self.architecture.clone(),
            path: self.path.clone(),
        }
    }
}

/// The views of a list of installations, in order.
pub open spec fn views(jvms: Seq<Jvm>) -> Seq<JvmView> {
    jvms.map_values(|j: Jvm| j@)
}

/// The text of an optional string.
pub open spec fn text_of(o: Option<String>) -> Option<Seq<char>> {
    match o {
        Some(s) => Some(s@),
        None => None,
    }
}

} // verus!
