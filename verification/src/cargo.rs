//! What the manifest of a Cargo package says.

use vstd::prelude::*;

use crate::text::texts;

verus! {

/// One target of a package.
pub struct Target {
    pub name: String,
    /// What the target is: `lib`, `bin`, `test` and the like.
    pub kind: Vec<String>,
    pub src_path: String,
}

/// In which table of the manifest a dependency stands.
#[derive(Clone, Copy, Debug, PartialEq, Eq, Structural)]
pub enum DependencyKind {
    Normal,
    Development,
    Build,
    Unknown,
}

/// One dependency of a package.
pub struct Dependency {
    pub name: String,
    /// The name under which the package knows it, where that is another.
    pub rename: Option<String>,
    pub kind: DependencyKind,
    /// The platform that it is for, where it is not for all.
    pub target: Option<String>,
    /// Where its sources are, where they are local.
    pub path: Option<String>,
    /// The versions that are asked for.
    pub req: String,
    pub uses_default_features: bool,
    pub features: Vec<String>,
}

/// A package.
pub struct Package {
    pub name: String,
    pub manifest_path: String,
    pub targets: Vec<Target>,
    pub dependencies: Vec<Dependency>,
}

/// The text of an optional string.
pub open spec fn optional_text(value: Option<String>) -> Option<Seq<char>> {
    match value {
        Some(text) => Some(text@),
        None => None,
    }
}

impl Target {
    /// Whether the target is of the kind.
    pub open spec fn has_kind(self, kind: Seq<char>) -> bool {
        texts(self.kind@).contains(kind)
    }

    /// Whether the target is a library of any kind.
    pub open spec fn is_library(self) -> bool {
        ||| self.has_kind("lib"@)
        ||| self.has_kind("rlib"@)
        ||| self.has_kind("dylib"@)
        ||| self.has_kind("staticlib"@)
        ||| self.has_kind("cdylib"@)
    }
}

} // verus!
