//! Packages and the constraints that a directive declares for them.

use vstd::prelude::*;
use crate::atom::{atom_name, atom_version, get_package_name};
use crate::constraint::VersionConstraint;
use crate::flags::UseFlagState;
use crate::name_map::NameMap;

verus! {

/// What a package is, as plain values.
pub struct PackageView {
    pub name: Seq<char>,
    pub version: Option<Seq<char>>,
}

/// A package as an atom names it. The name may carry a category before a
/// slash; the version is there only where the atom has one.
#[derive(Debug)]
pub struct PortagePackage {
    pub name: String,
    pub version: Option<String>,
}

impl View for PortagePackage {
    type V = PackageView;

    open spec fn view(&self) -> PackageView {
        PackageView {
            name: self.name@,
            version: match self.version {
                Some(v) => Some(v@),
                None => None,
            },
        }
    }
}

/// The package that an atom names.
pub open spec fn package_of(atom: Seq<char>) -> PackageView {
    PackageView { name: atom_name(atom), version: atom_version(atom) }
}

impl PortagePackage {
    /// The package that the atom `s` names. Every atom names one.
    pub fn from(s: &str) -> (r: Result<Self, i32>)
        ensures
            r is Ok,
            r->Ok_0@ == package_of(s@),
    {
        match get_package_name(s) {
            Ok((name, version)) => {
                let version = match version {
                    Some(v) => Some(v.to_owned()),
                    None => None,
                };
                Ok(PortagePackage { name: name.to_owned(), version })
            },
            Err(e) => Err(e),
        }
    }
}

/// What a directive declares, as plain values.
pub struct ConstraintView {
    pub package: PackageView,
    pub version_constraint: Option<VersionConstraint>,
    pub use_flags: Map<Seq<char>, UseFlagState>,
}

/// What one directive declares: the package, the operator before its atom,
/// and the state of each flag that the directive sets.
#[derive(Debug)]
pub struct PackageConstraint {
    pub package: PortagePackage,
    pub version_constraint: Option<VersionConstraint>,
    pub use_flags: NameMap<UseFlagState>,
}

impl View for PackageConstraint {
    type V = ConstraintView;

    open spec fn view(&self) -> ConstraintView {
        ConstraintView {
            package: self.package@,
            version_constraint: self.version_constraint,
            use_flags: self.use_flags@,
        }
    }
}

} // verus!
