//! The package as the read operations return it, full and short form.

use vstd::prelude::*;

use crate::domain::{Localized, LocalizedModel};
use crate::user;
use crate::version;

verus! {

/// A package in full: metadata and the whole nested version graph. This is
/// also the candidate graph a publish takes; the store then assigns counters
/// and timestamps itself.
#[derive(Debug, PartialEq)]
pub struct Full {
    pub name: String,
    pub description: Vec<Localized>,
    pub website: String,
    pub license: String,
    pub authors: Vec<String>,
    pub maintainers: Vec<user::Short>,
    pub versions: Vec<version::Full>,
    pub downloads: i32,
    pub likes: i32,
    pub created: i64,
    pub updated: i64,
}

/// Mathematical form of [`Full`].
#[verifier::ext_equal]
pub struct FullModel {
    pub name: Seq<char>,
    pub description: Seq<LocalizedModel>,
    pub website: Seq<char>,
    pub license: Seq<char>,
    pub authors: Seq<Seq<char>>,
    pub maintainers: Seq<user::ShortModel>,
    pub versions: Seq<version::FullModel>,
    pub downloads: i32,
    pub likes: i32,
    pub created: i64,
    pub updated: i64,
}

impl DeepView for Full {
    type V = FullModel;

    open spec fn deep_view(&self) -> FullModel {
        FullModel {
            name: self.name@,
            description: self.description.deep_view(),
            website: self.website@,
            license: self.license@,
            authors: self.authors.deep_view(),
            maintainers: self.maintainers.deep_view(),
            versions: self.versions.deep_view(),
            downloads: self.downloads,
            likes: self.likes,
            created: self.created,
            updated: self.updated,
        }
    }
}

/// A package reduced for listing pages: no website, license, author list or
/// timestamps, and versions in short form. A deliberate projection of
/// [`Full`], not a separate source of truth.
#[derive(Debug, PartialEq)]
pub struct Short {
    pub name: String,
    pub description: Vec<Localized>,
    pub maintainers: Vec<user::Short>,
    pub versions: Vec<version::Short>,
    pub downloads: i32,
    pub likes: i32,
}

/// Mathematical form of [`Short`].
#[verifier::ext_equal]
pub struct ShortModel {
    pub name: Seq<char>,
    pub description: Seq<LocalizedModel>,
    pub maintainers: Seq<user::ShortModel>,
    pub versions: Seq<version::ShortModel>,
    pub downloads: i32,
    pub likes: i32,
}

impl DeepView for Short {
    type V = ShortModel;

    open spec fn deep_view(&self) -> ShortModel {
        ShortModel {
            name: self.name@,
            description: self.description.deep_view(),
            maintainers: self.maintainers.deep_view(),
            versions: self.versions.deep_view(),
            downloads: self.downloads,
            likes: self.likes,
        }
    }
}

} // verus!
