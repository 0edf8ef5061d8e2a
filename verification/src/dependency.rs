//! The dependency edge as the read operations return it.

use vstd::prelude::*;

use crate::domain::{Localized, LocalizedModel};
use crate::types::DependencyType;

verus! {

/// A dependency in full: target package, version spec, kind, and — for
/// optional dependencies only — its localized descriptions.
#[derive(Debug, PartialEq)]
pub struct Full {
    pub package: String,
    pub spec_str: String,
    pub dep_type: DependencyType,
    pub description: Option<Vec<Localized>>,
}

/// Mathematical form of [`Full`].
#[verifier::ext_equal]
pub struct FullModel {
    pub package: Seq<char>,
    pub spec_str: Seq<char>,
    pub dep_type: DependencyType,
    pub description: Option<Seq<LocalizedModel>>,
}

impl DeepView for Full {
    type V = FullModel;

    open spec fn deep_view(&self) -> FullModel {
        FullModel {
            package: self.package@,
            spec_str: self.spec_str@,
            dep_type: self.dep_type,
            description: self.description.deep_view(),
        }
    }
}

/// A dependency reduced for listing pages: target package and version spec.
#[derive(Debug, PartialEq)]
pub struct Short {
    pub package: String,
    pub spec_str: String,
}

/// Mathematical form of [`Short`].
#[verifier::ext_equal]
pub struct ShortModel {
    pub package: Seq<char>,
    pub spec_str: Seq<char>,
}

impl DeepView for Short {
    type V = ShortModel;

    open spec fn deep_view(&self) -> ShortModel {
        ShortModel { package: self.package@, spec_str: self.spec_str@ }
    }
}

} // verus!
