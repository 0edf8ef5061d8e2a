//! The package version as the read operations return it.

use vstd::prelude::*;

use crate::dependency;
use crate::domain::{ContentNode, ContentNodeModel, Localized, LocalizedModel};

verus! {

/// A version in full: texts split by kind, dependencies and file tree.
#[derive(Debug, PartialEq)]
pub struct Full {
    pub version: String,
    pub changes: Vec<Localized>,
    pub readme: Vec<Localized>,
    pub url: String,
    pub dependencies: Vec<dependency::Full>,
    pub contents: Vec<ContentNode>,
    pub created: i64,
}

/// Mathematical form of [`Full`].
#[verifier::ext_equal]
pub struct FullModel {
    pub version: Seq<char>,
    pub changes: Seq<LocalizedModel>,
    pub readme: Seq<LocalizedModel>,
    pub url: Seq<char>,
    pub dependencies: Seq<dependency::FullModel>,
    pub contents: Seq<ContentNodeModel>,
    pub created: i64,
}

impl DeepView for Full {
    type V = FullModel;

    open spec fn deep_view(&self) -> FullModel {
        FullModel {
            version: self.version@,
            changes: self.changes.deep_view(),
            readme: self.readme.deep_view(),
            url: self.url@,
            dependencies: self.dependencies.deep_view(),
            contents: self.contents.deep_view(),
            created: self.created,
        }
    }
}

/// A version reduced for listing pages: version string and short-form
/// dependencies.
#[derive(Debug, PartialEq)]
pub struct Short {
    pub version: String,
    pub url: String,
    pub dependencies: Vec<dependency::Short>,
}

/// Mathematical form of [`Short`].
#[verifier::ext_equal]
pub struct ShortModel {
    pub version: Seq<char>,
    pub url: Seq<char>,
    pub dependencies: Seq<dependency::ShortModel>,
}

impl DeepView for Short {
    type V = ShortModel;

    open spec fn deep_view(&self) -> ShortModel {
        ShortModel {
            version: self.version@,
            url: self.url@,
            dependencies: self.dependencies.deep_view(),
        }
    }
}

} // verus!
