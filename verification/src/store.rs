//! The relational store, modeled as a plain value.
//!
//! A `Store` stands for the registry's database: one vector per table, the
//! counters behind generated identifiers, and a logical clock that stamps
//! creation times. Exclusive access (`&mut Store`) models the transaction
//! scope of a write operation: an operation either commits its whole
//! write-set or leaves the store exactly as it was.

use vstd::prelude::*;

use crate::casing::{lower_of, lowercase};
use crate::error::DbError;
use crate::group::distinct_keys;
use crate::rows::{
    ContentNode, Dependency, Description, DependencyDescription, Like, Maintainer, NewUser,
    Package, User, Version, VersionText,
};
use crate::user;

verus! {

/// The whole relational state.
pub struct Store {
    pub users: Vec<User>,
    pub packages: Vec<Package>,
    pub likes: Vec<Like>,
    pub versions: Vec<Version>,
    pub dependencies: Vec<Dependency>,
    pub contents: Vec<ContentNode>,
    pub maintainers: Vec<Maintainer>,
    pub descriptions: Vec<Description>,
    pub version_texts: Vec<VersionText>,
    pub dependency_descriptions: Vec<DependencyDescription>,
    pub next_user_id: i32,
    pub next_version_id: i32,
    pub next_dependency_id: i32,
    pub next_content_id: i32,
    pub clock: i64,
}

/// The package names, in table order.
pub open spec fn package_names(packages: Seq<Package>) -> Seq<Seq<char>> {
    packages.map_values(|p: Package| p.name@)
}

/// Whether some user's folded username equals `lname`.
pub open spec fn has_user_lower(users: Seq<User>, lname: Seq<char>) -> bool {
    exists|i: int| 0 <= i < users.len() && lower_of(#[trigger] users[i].username@) == lname
}

/// The first user whose folded username equals `lname`.
pub open spec fn first_lower_match(users: Seq<User>, lname: Seq<char>) -> Option<User>
    decreases users.len(),
{
    if users.len() == 0 {
        None
    } else if lower_of(users[0].username@) == lname {
        Some(users[0])
    } else {
        first_lower_match(users.drop_first(), lname)
    }
}

impl Store {
    /// Well-formedness: what every store reachable through this library's
    /// operations satisfies, and what the read operations rely on.
    pub open spec fn wf(self) -> bool {
        // capacities a relational store with 32-bit keys cannot exceed
        &&& self.packages@.len() <= i32::MAX
        &&& self.likes@.len() <= i32::MAX
        // id counters never run backwards
        &&& 0 <= self.next_user_id
        &&& 0 <= self.next_version_id
        &&& 0 <= self.next_dependency_id
        &&& 0 <= self.next_content_id
        &&& 0 <= self.clock
        // packages: unique names, strictly ordered creation stamps, stamped
        // before the clock's present
        &&& distinct_keys(package_names(self.packages@))
        &&& forall|i: int, j: int|
            0 <= i < j < self.packages@.len() ==> #[trigger] self.packages@[i].created
                < #[trigger] self.packages@[j].created
        &&& forall|i: int|
            0 <= i < self.packages@.len() ==> #[trigger] self.packages@[i].created < self.clock
        // users: ids unique and below the counter
        &&& forall|i: int|
            0 <= i < self.users@.len() ==> 0 <= #[trigger] self.users@[i].id
                < self.next_user_id
        &&& forall|i: int, j: int|
            0 <= i < j < self.users@.len() ==> #[trigger] self.users@[i].id
                != #[trigger] self.users@[j].id
        // versions: ids unique and below the counter, owner exists, version
        // string unique within its package
        &&& forall|i: int|
            0 <= i < self.versions@.len() ==> 0 <= #[trigger] self.versions@[i].id
                < self.next_version_id
        &&& forall|i: int, j: int|
            0 <= i < j < self.versions@.len() ==> #[trigger] self.versions@[i].id
                != #[trigger] self.versions@[j].id
        &&& forall|i: int|
            0 <= i < self.versions@.len() ==> package_names(self.packages@).contains(
                #[trigger] self.versions@[i].package@,
            )
        &&& forall|i: int, j: int|
            0 <= i < j < self.versions@.len() ==> !(#[trigger] self.versions@[i].package@
                == #[trigger] self.versions@[j].package@ && self.versions@[i].version@
                == self.versions@[j].version@)
        // dependencies: ids unique and below the counter, owning version id
        // below its counter
        &&& forall|i: int|
            0 <= i < self.dependencies@.len() ==> 0 <= #[trigger] self.dependencies@[i].id
                < self.next_dependency_id
        &&& forall|i: int, j: int|
            0 <= i < j < self.dependencies@.len() ==> #[trigger] self.dependencies@[i].id
                != #[trigger] self.dependencies@[j].id
        &&& forall|i: int|
            0 <= i < self.dependencies@.len() ==> 0 <= #[trigger] self.dependencies@[i].version
                < self.next_version_id
        // the remaining child tables reference ids below their counters
        &&& forall|i: int|
            0 <= i < self.contents@.len() ==> 0 <= #[trigger] self.contents@[i].version
                < self.next_version_id
        &&& forall|i: int|
            0 <= i < self.version_texts@.len() ==> 0 <= #[trigger] self.version_texts@[i].version
                < self.next_version_id
        &&& forall|i: int|
            0 <= i < self.dependency_descriptions@.len() ==> 0
                <= #[trigger] self.dependency_descriptions@[i].dependency
                < self.next_dependency_id
    }

    /// A fresh, empty store.
    pub fn new() -> (r: Store)
        ensures
            r.wf(),
            r.users@ == Seq::<User>::empty(),
            r.packages@ == Seq::<Package>::empty(),
            r.likes@ == Seq::<Like>::empty(),
            r.versions@ == Seq::<Version>::empty(),
            r.dependencies@ == Seq::<Dependency>::empty(),
            r.contents@ == Seq::<ContentNode>::empty(),
            r.maintainers@ == Seq::<Maintainer>::empty(),
            r.descriptions@ == Seq::<Description>::empty(),
            r.version_texts@ == Seq::<VersionText>::empty(),
            r.dependency_descriptions@ == Seq::<DependencyDescription>::empty(),
            r.next_user_id == 0 && r.next_version_id == 0 && r.next_dependency_id == 0
                && r.next_content_id == 0 && r.clock == 0,
    {
        Store {
            users: Vec::new(),
            packages: Vec::new(),
            likes: Vec::new(),
            versions: Vec::new(),
            dependencies: Vec::new(),
            contents: Vec::new(),
            maintainers: Vec::new(),
            descriptions: Vec::new(),
            version_texts: Vec::new(),
            dependency_descriptions: Vec::new(),
            next_user_id: 0,
            next_version_id: 0,
            next_dependency_id: 0,
            next_content_id: 0,
            clock: 0,
        }
    }

    /// Registers a user. Fails with `Conflict` when the username is already
    /// taken up to case folding, with `StoreError` when the store has no
    /// room left for an id or a timestamp; otherwise appends the user row
    /// with the next id and the present registration stamp.
    pub fn create_user(&mut self, nu: NewUser) -> (r: Result<i32, DbError>)
        requires
            old(self).wf(),
        ensures
            final(self).wf(),
            r is Ok <==> (!has_user_lower(old(self).users@, lower_of(nu.username@))
                && old(self).next_user_id < i32::MAX && old(self).clock < i64::MAX),
            match r {
                Ok(id) => {
                    &&& id == old(self).next_user_id
                    &&& final(self).users@ == old(self).users@.push(
                        User {
                            id: old(self).next_user_id,
                            username: nu.username,
                            password: nu.password,
                            salt: nu.salt,
                            group: nu.group,
                            registered: old(self).clock,
                        },
                    )
                    &&& final(self).next_user_id == old(self).next_user_id + 1
                    &&& final(self).clock == old(self).clock + 1
                    &&& final(self).packages == old(self).packages
                    &&& final(self).likes == old(self).likes
                    &&& final(self).versions == old(self).versions
                    &&& final(self).dependencies == old(self).dependencies
                    &&& final(self).contents == old(self).contents
                    &&& final(self).maintainers == old(self).maintainers
                    &&& final(self).descriptions == old(self).descriptions
                    &&& final(self).version_texts == old(self).version_texts
                    &&& final(self).dependency_descriptions == old(self).dependency_descriptions
                    &&& final(self).next_version_id == old(self).next_version_id
                    &&& final(self).next_dependency_id == old(self).next_dependency_id
                    &&& final(self).next_content_id == old(self).next_content_id
                },
                Err(e) => {
                    &&& *final(self) == *old(self)
                    &&& (e == DbError::Conflict <==> has_user_lower(
                        old(self).users@,
                        lower_of(nu.username@),
                    ))
                    &&& (e == DbError::Conflict || e == DbError::StoreError)
                },
            },
    {
        let lname = lowercase(nu.username.as_str());
        let mut i: usize = 0;
        while i < self.users.len()
            invariant
                *self == *old(self),
                old(self).wf(),
                lname@ == lower_of(nu.username@),
                i <= self.users@.len(),
                forall|t: int|
                    0 <= t < i ==> lower_of(#[trigger] self.users@[t].username@) != lname@,
            decreases self.users@.len() - i,
        {
            let lu = lowercase(self.users[i].username.as_str());
            if lu == lname {
                return Err(DbError::Conflict);
            }
            i += 1;
        }
        if self.next_user_id == i32::MAX || self.clock == i64::MAX {
            return Err(DbError::StoreError);
        }
        let id = self.next_user_id;
        let row = User {
            id,
            username: nu.username,
            password: nu.password,
            salt: nu.salt,
            group: nu.group,
            registered: self.clock,
        };
        self.users.push(row);
        self.next_user_id = id + 1;
        self.clock = self.clock + 1;
        Ok(id)
    }

    /// Looks a user up by username, matched case-insensitively. Returns the
    /// first matching row — under well-formedness there is at most one —
    /// or `NotFound`.
    pub fn get_user(&self, username: &String) -> (r: Result<user::Full, DbError>)
        ensures
            r is Ok <==> first_lower_match(self.users@, lower_of(username@)) is Some,
            match r {
                Ok(u) => {
                    let m = first_lower_match(self.users@, lower_of(username@));
                    &&& m is Some
                    &&& u.deep_view() == (user::FullModel {
                        username: m->Some_0.username@,
                        group: m->Some_0.group,
                        registered: m->Some_0.registered,
                    })
                },
                Err(e) => e == DbError::NotFound,
            },
    {
        let lname = lowercase(username.as_str());
        assert(self.users@.skip(0) =~= self.users@);
        let mut i: usize = 0;
        while i < self.users.len()
            invariant
                lname@ == lower_of(username@),
                i <= self.users@.len(),
                first_lower_match(self.users@, lname@) == first_lower_match(
                    self.users@.skip(i as int),
                    lname@,
                ),
            decreases self.users@.len() - i,
        {
            let lu = lowercase(self.users[i].username.as_str());
            proof {
                assert(self.users@.skip(i as int).len() > 0);
                assert(self.users@.skip(i as int)[0] == self.users@[i as int]);
                assert(self.users@.skip(i as int).drop_first() =~= self.users@.skip(i as int + 1));
            }
            if lu == lname {
                let u = &self.users[i];
                return Ok(
                    user::Full {
                        username: u.username.clone(),
                        group: u.group,
                        registered: u.registered,
                    },
                );
            }
            i += 1;
        }
        assert(self.users@.skip(self.users@.len() as int).len() == 0);
        Err(DbError::NotFound)
    }
}

} // verus!
