//! The flat relational rows the store holds, one struct per table, and the
//! row values handed to the insert steps of a publish.

use vstd::prelude::*;

use crate::types::{DependencyType, Language, NodeType, UserGroup};

verus! {

/// A registered user.
#[derive(Debug, PartialEq)]
pub struct User {
    pub id: i32,
    pub username: String,
    pub password: Vec<u8>,
    pub salt: Vec<u8>,
    pub group: UserGroup,
    pub registered: i64,
}

/// A user to insert: the store assigns id and registration time.
#[derive(Debug, PartialEq)]
pub struct NewUser {
    pub username: String,
    pub password: Vec<u8>,
    pub salt: Vec<u8>,
    pub group: UserGroup,
}

/// A package, keyed by its unique name.
#[derive(Debug, PartialEq)]
pub struct Package {
    pub name: String,
    pub website: String,
    pub license: String,
    pub authors: Vec<String>,
    pub downloads: i32,
    pub created: i64,
    pub updated: i64,
}

/// A package to insert: the store assigns counters and timestamps.
#[derive(Debug, PartialEq)]
pub struct NewPackage {
    pub name: String,
    pub website: String,
    pub license: String,
    pub authors: Vec<String>,
}

/// A like of a package by a user.
#[derive(Debug, PartialEq)]
pub struct Like {
    pub user: i32,
    pub package: String,
    pub time: i64,
}

/// A like to insert: the store assigns the time.
#[derive(Debug, PartialEq)]
pub struct NewLike {
    pub user: i32,
    pub package: String,
}

/// A version of a package.
#[derive(Debug, PartialEq)]
pub struct Version {
    pub id: i32,
    pub package: String,
    pub version: String,
    pub created: i64,
}

/// A version to insert: the store assigns id and creation time.
#[derive(Debug, PartialEq)]
pub struct NewVersion {
    pub package: String,
    pub version: String,
}

/// A dependency of a version: `package` denormalizes the owning package's
/// name, `target` names the package depended on.
#[derive(Debug, PartialEq)]
pub struct Dependency {
    pub id: i32,
    pub package: String,
    pub version: i32,
    pub target: String,
    pub spec_str: String,
    pub dep_type: DependencyType,
}

/// A dependency to insert: the store assigns the id.
#[derive(Debug, PartialEq)]
pub struct NewDependency {
    pub package: String,
    pub version: i32,
    pub target: String,
    pub spec_str: String,
    pub dep_type: DependencyType,
}

/// An entry of a version's file tree.
#[derive(Debug, PartialEq)]
pub struct ContentNode {
    pub id: i32,
    pub version: i32,
    pub path: String,
    pub node_type: NodeType,
}

/// A file-tree entry to insert: the store assigns the id.
#[derive(Debug, PartialEq)]
pub struct NewContentNode {
    pub version: i32,
    pub path: String,
    pub node_type: NodeType,
}

/// A maintainer link between a user and a package.
#[derive(Debug, PartialEq)]
pub struct Maintainer {
    pub user: i32,
    pub package: String,
}

/// A maintainer link to insert.
#[derive(Debug, PartialEq)]
pub struct NewMaintainer {
    pub user: i32,
    pub package: String,
}

/// A localized description of a package, one row per language.
#[derive(Debug, PartialEq)]
pub struct Description {
    pub package: String,
    pub language: Language,
    pub description: String,
}

/// A package description to insert.
#[derive(Debug, PartialEq)]
pub struct NewDescription {
    pub package: String,
    pub language: Language,
    pub description: String,
}

/// The changelog and readme of a version in one language.
#[derive(Debug, PartialEq)]
pub struct VersionText {
    pub version: i32,
    pub language: Language,
    pub changes: String,
    pub readme: String,
}

/// A version text to insert.
#[derive(Debug, PartialEq)]
pub struct NewVersionText {
    pub version: i32,
    pub language: Language,
    pub changes: String,
    pub readme: String,
}

/// A localized description of an optional dependency, one row per language.
#[derive(Debug, PartialEq)]
pub struct DependencyDescription {
    pub dependency: i32,
    pub language: Language,
    pub description: String,
}

/// A dependency description to insert.
#[derive(Debug, PartialEq)]
pub struct NewDependencyDescription {
    pub dependency: i32,
    pub language: Language,
    pub description: String,
}

/// One row of the grouped like-count aggregate: a package name and how many
/// likes it has. Packages without likes yield no row.
#[derive(Debug, PartialEq)]
pub struct GroupedLike {
    pub package: String,
    pub likes: i64,
}

impl Clone for Version {
    fn clone(&self) -> (r: Self)
        ensures
            r == *self,
    {
        Version {
            id: self.id,
            package: self.package.clone(),
            version: self.version.clone(),
            created: self.created,
        }
    }
}

impl Clone for Dependency {
    fn clone(&self) -> (r: Self)
        ensures
            r == *self,
    {
        Dependency {
            id: self.id,
            package: self.package.clone(),
            version: self.version,
            target: self.target.clone(),
            spec_str: self.spec_str.clone(),
            dep_type: self.dep_type,
        }
    }
}

impl Clone for ContentNode {
    fn clone(&self) -> (r: Self)
        ensures
            r == *self,
    {
        ContentNode {
            id: self.id,
            version: self.version,
            path: self.path.clone(),
            node_type: self.node_type,
        }
    }
}

impl Clone for Maintainer {
    fn clone(&self) -> (r: Self)
        ensures
            r == *self,
    {
        Maintainer { user: self.user, package: self.package.clone() }
    }
}

impl Clone for Description {
    fn clone(&self) -> (r: Self)
        ensures
            r == *self,
    {
        Description {
            package: self.package.clone(),
            language: self.language,
            description: self.description.clone(),
        }
    }
}

impl Clone for VersionText {
    fn clone(&self) -> (r: Self)
        ensures
            r == *self,
    {
        VersionText {
            version: self.version,
            language: self.language,
            changes: self.changes.clone(),
            readme: self.readme.clone(),
        }
    }
}

impl Clone for DependencyDescription {
    fn clone(&self) -> (r: Self)
        ensures
            r == *self,
    {
        DependencyDescription {
            dependency: self.dependency,
            language: self.language,
            description: self.description.clone(),
        }
    }
}

impl Clone for GroupedLike {
    fn clone(&self) -> (r: Self)
        ensures
            r == *self,
    {
        GroupedLike { package: self.package.clone(), likes: self.likes }
    }
}

} // verus!
