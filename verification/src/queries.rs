//! The batched loader and the grouped aggregates: one pass per entity type
//! per read operation, never a scan per parent row.

use vstd::prelude::*;

use crate::error::DbError;
use crate::rows::{
    ContentNode, Dependency, DependencyDescription, Description, GroupedLike, Like, Maintainer,
    User, Version, VersionText,
};
use crate::seqs::lemma_filter_push;
use crate::store::Store;
use crate::strutil::{contains_i32, contains_name, name_views};

verus! {

// ---------------------------------------------------------------- selections

/// The versions owned by the named package, in table order.
pub open spec fn versions_named(vs: Seq<Version>, name: Seq<char>) -> Seq<Version> {
    vs.filter(|v: Version| v.package@ == name)
}

/// The versions owned by any of the named packages, in table order.
pub open spec fn versions_in(vs: Seq<Version>, names: Seq<Seq<char>>) -> Seq<Version> {
    vs.filter(|v: Version| names.contains(v.package@))
}

/// The dependencies owned by one version.
pub open spec fn deps_of(ds: Seq<Dependency>, vid: i32) -> Seq<Dependency> {
    ds.filter(|d: Dependency| d.version == vid)
}

/// The dependencies owned by any of the versions.
pub open spec fn deps_in(ds: Seq<Dependency>, ids: Seq<i32>) -> Seq<Dependency> {
    ds.filter(|d: Dependency| ids.contains(d.version))
}

/// The file-tree entries owned by one version.
pub open spec fn contents_of(cs: Seq<ContentNode>, vid: i32) -> Seq<ContentNode> {
    cs.filter(|c: ContentNode| c.version == vid)
}

/// The file-tree entries owned by any of the versions.
pub open spec fn contents_in(cs: Seq<ContentNode>, ids: Seq<i32>) -> Seq<ContentNode> {
    cs.filter(|c: ContentNode| ids.contains(c.version))
}

/// The text bundles owned by one version.
pub open spec fn texts_of(ts: Seq<VersionText>, vid: i32) -> Seq<VersionText> {
    ts.filter(|t: VersionText| t.version == vid)
}

/// The text bundles owned by any of the versions.
pub open spec fn texts_in(ts: Seq<VersionText>, ids: Seq<i32>) -> Seq<VersionText> {
    ts.filter(|t: VersionText| ids.contains(t.version))
}

/// The descriptions owned by one dependency.
pub open spec fn depdescs_of(dds: Seq<DependencyDescription>, did: i32) -> Seq<
    DependencyDescription,
> {
    dds.filter(|d: DependencyDescription| d.dependency == did)
}

/// The descriptions owned by any of the dependencies.
pub open spec fn depdescs_in(dds: Seq<DependencyDescription>, ids: Seq<i32>) -> Seq<
    DependencyDescription,
> {
    dds.filter(|d: DependencyDescription| ids.contains(d.dependency))
}

/// The descriptions of the named package.
pub open spec fn descriptions_named(ds: Seq<Description>, name: Seq<char>) -> Seq<Description> {
    ds.filter(|d: Description| d.package@ == name)
}

/// The descriptions of any of the named packages.
pub open spec fn descriptions_in(ds: Seq<Description>, names: Seq<Seq<char>>) -> Seq<Description> {
    ds.filter(|d: Description| names.contains(d.package@))
}

/// The maintainer links of one named package.
pub open spec fn maintainers_named(ms: Seq<Maintainer>, name: Seq<char>) -> Seq<Maintainer> {
    ms.filter(|m: Maintainer| m.package@ == name)
}

/// The maintainer links of any of the named packages.
pub open spec fn maintainers_in(ms: Seq<Maintainer>, names: Seq<Seq<char>>) -> Seq<Maintainer> {
    ms.filter(|m: Maintainer| names.contains(m.package@))
}

/// The likes of the named package.
pub open spec fn likes_named(ls: Seq<Like>, name: Seq<char>) -> Seq<Like> {
    ls.filter(|l: Like| l.package@ == name)
}

/// How many likes the named package has.
pub open spec fn like_count(ls: Seq<Like>, name: Seq<char>) -> int {
    likes_named(ls, name).len() as int
}

/// Whether a maintainer link joins the user to the named package.
pub open spec fn has_maintainer(ms: Seq<Maintainer>, uid: i32, name: Seq<char>) -> bool {
    exists|i: int| 0 <= i < ms.len() && (#[trigger] ms[i]).user == uid && ms[i].package@ == name
}

/// The usernames of the named package's maintainers, resolved through an
/// inner join: users without a link drop out, links without a user are
/// ignored, and the users' table order decides the output order.
pub open spec fn maintainer_names_of(users: Seq<User>, ms: Seq<Maintainer>, name: Seq<char>) -> Seq<
    Seq<char>,
> {
    users.filter(|u: User| has_maintainer(ms, u.id, name)).map_values(|u: User| u.username@)
}

/// The first user carrying the id, in table order.
pub open spec fn first_user_by_id(users: Seq<User>, uid: i32) -> Option<User>
    decreases users.len(),
{
    if users.len() == 0 {
        None
    } else if users[0].id == uid {
        Some(users[0])
    } else {
        first_user_by_id(users.drop_first(), uid)
    }
}

/// The grouped like-count aggregate: one row per name with at least one
/// like, in the order the names were given.
pub open spec fn grouped_likes_spec(ls: Seq<Like>, names: Seq<String>) -> Seq<GroupedLike> {
    names.filter(|n: String| like_count(ls, n@) > 0).map_values(
        |n: String| GroupedLike { package: n, likes: like_count(ls, n@) as i64 },
    )
}

// ------------------------------------------------------------------- loaders

/// Loads the named package's versions.
pub fn fetch_versions_named(s: &Store, name: &String) -> (r: Vec<Version>)
    ensures
        r@ == versions_named(s.versions@, name@),
{
    let mut r: Vec<Version> = Vec::new();
    let mut i: usize = 0;
    while i < s.versions.len()
        invariant
            i <= s.versions@.len(),
            r@ == versions_named(s.versions@.take(i as int), name@),
        decreases s.versions@.len() - i,
    {
        let v = &s.versions[i];
        proof {
            assert(s.versions@.take(i as int + 1) =~= s.versions@.take(i as int).push(
                s.versions@[i as int],
            ));
            lemma_filter_push(
                s.versions@.take(i as int),
                s.versions@[i as int],
                |v: Version| v.package@ == name@,
            );
        }
        if v.package.eq(name) {
            r.push(v.clone());
        }
        i += 1;
    }
    proof {
        assert(s.versions@.take(s.versions@.len() as int) =~= s.versions@);
    }
    r
}

/// Loads the versions of every named package in one pass.
pub fn fetch_versions_in(s: &Store, names: &Vec<String>) -> (r: Vec<Version>)
    ensures
        r@ == versions_in(s.versions@, name_views(names@)),
{
    let mut r: Vec<Version> = Vec::new();
    let mut i: usize = 0;
    while i < s.versions.len()
        invariant
            i <= s.versions@.len(),
            r@ == versions_in(s.versions@.take(i as int), name_views(names@)),
        decreases s.versions@.len() - i,
    {
        let v = &s.versions[i];
        proof {
            assert(s.versions@.take(i as int + 1) =~= s.versions@.take(i as int).push(
                s.versions@[i as int],
            ));
            lemma_filter_push(
                s.versions@.take(i as int),
                s.versions@[i as int],
                |v: Version| name_views(names@).contains(v.package@),
            );
        }
        if contains_name(names, &v.package) {
            r.push(v.clone());
        }
        i += 1;
    }
    proof {
        assert(s.versions@.take(s.versions@.len() as int) =~= s.versions@);
    }
    r
}

/// Loads the dependencies of every listed version in one pass.
pub fn fetch_deps_in(s: &Store, ids: &Vec<i32>) -> (r: Vec<Dependency>)
    ensures
        r@ == deps_in(s.dependencies@, ids@),
{
    let mut r: Vec<Dependency> = Vec::new();
    let mut i: usize = 0;
    while i < s.dependencies.len()
        invariant
            i <= s.dependencies@.len(),
            r@ == deps_in(s.dependencies@.take(i as int), ids@),
        decreases s.dependencies@.len() - i,
    {
        let d = &s.dependencies[i];
        proof {
            assert(s.dependencies@.take(i as int + 1) =~= s.dependencies@.take(i as int).push(
                s.dependencies@[i as int],
            ));
            lemma_filter_push(
                s.dependencies@.take(i as int),
                s.dependencies@[i as int],
                |d: Dependency| ids@.contains(d.version),
            );
        }
        if contains_i32(ids, d.version) {
            r.push(d.clone());
        }
        i += 1;
    }
    proof {
        assert(s.dependencies@.take(s.dependencies@.len() as int) =~= s.dependencies@);
    }
    r
}

/// Loads the file-tree entries of every listed version in one pass.
pub fn fetch_contents_in(s: &Store, ids: &Vec<i32>) -> (r: Vec<ContentNode>)
    ensures
        r@ == contents_in(s.contents@, ids@),
{
    let mut r: Vec<ContentNode> = Vec::new();
    let mut i: usize = 0;
    while i < s.contents.len()
        invariant
            i <= s.contents@.len(),
            r@ == contents_in(s.contents@.take(i as int), ids@),
        decreases s.contents@.len() - i,
    {
        let c = &s.contents[i];
        proof {
            assert(s.contents@.take(i as int + 1) =~= s.contents@.take(i as int).push(
                s.contents@[i as int],
            ));
            lemma_filter_push(
                s.contents@.take(i as int),
                s.contents@[i as int],
                |c: ContentNode| ids@.contains(c.version),
            );
        }
        if contains_i32(ids, c.version) {
            r.push(c.clone());
        }
        i += 1;
    }
    proof {
        assert(s.contents@.take(s.contents@.len() as int) =~= s.contents@);
    }
    r
}

/// Loads the text bundles of every listed version in one pass.
pub fn fetch_texts_in(s: &Store, ids: &Vec<i32>) -> (r: Vec<VersionText>)
    ensures
        r@ == texts_in(s.version_texts@, ids@),
{
    let mut r: Vec<VersionText> = Vec::new();
    let mut i: usize = 0;
    while i < s.version_texts.len()
        invariant
            i <= s.version_texts@.len(),
            r@ == texts_in(s.version_texts@.take(i as int), ids@),
        decreases s.version_texts@.len() - i,
    {
        let t = &s.version_texts[i];
        proof {
            assert(s.version_texts@.take(i as int + 1) =~= s.version_texts@.take(i as int).push(
                s.version_texts@[i as int],
            ));
            lemma_filter_push(
                s.version_texts@.take(i as int),
                s.version_texts@[i as int],
                |t: VersionText| ids@.contains(t.version),
            );
        }
        if contains_i32(ids, t.version) {
            r.push(t.clone());
        }
        i += 1;
    }
    proof {
        assert(s.version_texts@.take(s.version_texts@.len() as int) =~= s.version_texts@);
    }
    r
}

/// Loads the descriptions of every listed dependency in one pass.
pub fn fetch_depdescs_in(s: &Store, ids: &Vec<i32>) -> (r: Vec<DependencyDescription>)
    ensures
        r@ == depdescs_in(s.dependency_descriptions@, ids@),
{
    let mut r: Vec<DependencyDescription> = Vec::new();
    let mut i: usize = 0;
    while i < s.dependency_descriptions.len()
        invariant
            i <= s.dependency_descriptions@.len(),
            r@ == depdescs_in(s.dependency_descriptions@.take(i as int), ids@),
        decreases s.dependency_descriptions@.len() - i,
    {
        let d = &s.dependency_descriptions[i];
        proof {
            assert(s.dependency_descriptions@.take(i as int + 1) =~= s.dependency_descriptions@
                .take(i as int).push(s.dependency_descriptions@[i as int]));
            lemma_filter_push(
                s.dependency_descriptions@.take(i as int),
                s.dependency_descriptions@[i as int],
                |d: DependencyDescription| ids@.contains(d.dependency),
            );
        }
        if contains_i32(ids, d.dependency) {
            r.push(d.clone());
        }
        i += 1;
    }
    proof {
        assert(s.dependency_descriptions@.take(s.dependency_descriptions@.len() as int)
            =~= s.dependency_descriptions@);
    }
    r
}

/// Loads the named package's descriptions.
pub fn fetch_descriptions_named(s: &Store, name: &String) -> (r: Vec<Description>)
    ensures
        r@ == descriptions_named(s.descriptions@, name@),
{
    let mut r: Vec<Description> = Vec::new();
    let mut i: usize = 0;
    while i < s.descriptions.len()
        invariant
            i <= s.descriptions@.len(),
            r@ == descriptions_named(s.descriptions@.take(i as int), name@),
        decreases s.descriptions@.len() - i,
    {
        let d = &s.descriptions[i];
        proof {
            assert(s.descriptions@.take(i as int + 1) =~= s.descriptions@.take(i as int).push(
                s.descriptions@[i as int],
            ));
            lemma_filter_push(
                s.descriptions@.take(i as int),
                s.descriptions@[i as int],
                |d: Description| d.package@ == name@,
            );
        }
        if d.package.eq(name) {
            r.push(d.clone());
        }
        i += 1;
    }
    proof {
        assert(s.descriptions@.take(s.descriptions@.len() as int) =~= s.descriptions@);
    }
    r
}

/// Loads the descriptions of every named package in one pass.
pub fn fetch_descriptions_in(s: &Store, names: &Vec<String>) -> (r: Vec<Description>)
    ensures
        r@ == descriptions_in(s.descriptions@, name_views(names@)),
{
    let mut r: Vec<Description> = Vec::new();
    let mut i: usize = 0;
    while i < s.descriptions.len()
        invariant
            i <= s.descriptions@.len(),
            r@ == descriptions_in(s.descriptions@.take(i as int), name_views(names@)),
        decreases s.descriptions@.len() - i,
    {
        let d = &s.descriptions[i];
        proof {
            assert(s.descriptions@.take(i as int + 1) =~= s.descriptions@.take(i as int).push(
                s.descriptions@[i as int],
            ));
            lemma_filter_push(
                s.descriptions@.take(i as int),
                s.descriptions@[i as int],
                |d: Description| name_views(names@).contains(d.package@),
            );
        }
        if contains_name(names, &d.package) {
            r.push(d.clone());
        }
        i += 1;
    }
    proof {
        assert(s.descriptions@.take(s.descriptions@.len() as int) =~= s.descriptions@);
    }
    r
}

/// Loads the maintainer links of every named package in one pass.
pub fn fetch_maintainers_in(s: &Store, names: &Vec<String>) -> (r: Vec<Maintainer>)
    ensures
        r@ == maintainers_in(s.maintainers@, name_views(names@)),
{
    let mut r: Vec<Maintainer> = Vec::new();
    let mut i: usize = 0;
    while i < s.maintainers.len()
        invariant
            i <= s.maintainers@.len(),
            r@ == maintainers_in(s.maintainers@.take(i as int), name_views(names@)),
        decreases s.maintainers@.len() - i,
    {
        let m = &s.maintainers[i];
        proof {
            assert(s.maintainers@.take(i as int + 1) =~= s.maintainers@.take(i as int).push(
                s.maintainers@[i as int],
            ));
            lemma_filter_push(
                s.maintainers@.take(i as int),
                s.maintainers@[i as int],
                |m: Maintainer| name_views(names@).contains(m.package@),
            );
        }
        if contains_name(names, &m.package) {
            r.push(m.clone());
        }
        i += 1;
    }
    proof {
        assert(s.maintainers@.take(s.maintainers@.len() as int) =~= s.maintainers@);
    }
    r
}

// ---------------------------------------------------------------- aggregates

/// Counts the named package's likes with one aggregate pass.
pub fn count_likes(s: &Store, name: &String) -> (r: i32)
    requires
        s.likes@.len() <= i32::MAX,
    ensures
        r as int == like_count(s.likes@, name@),
{
    let mut c: i32 = 0;
    let mut i: usize = 0;
    while i < s.likes.len()
        invariant
            i <= s.likes@.len(),
            s.likes@.len() <= i32::MAX,
            c as int == like_count(s.likes@.take(i as int), name@),
            c as int <= i as int,
        decreases s.likes@.len() - i,
    {
        let l = &s.likes[i];
        proof {
            assert(s.likes@.take(i as int + 1) =~= s.likes@.take(i as int).push(
                s.likes@[i as int],
            ));
            lemma_filter_push(s.likes@.take(i as int), s.likes@[i as int], |l: Like| l.package@ == name@);
        }
        if l.package.eq(name) {
            c = c + 1;
        }
        i += 1;
    }
    proof {
        assert(s.likes@.take(s.likes@.len() as int) =~= s.likes@);
    }
    c
}

/// The grouped like-count aggregate over a list of names: one output row
/// per name with at least one like, in the given name order.
pub fn grouped_likes(s: &Store, names: &Vec<String>) -> (r: Vec<GroupedLike>)
    requires
        s.likes@.len() <= i32::MAX,
    ensures
        r@ == grouped_likes_spec(s.likes@, names@),
{
    let mut r: Vec<GroupedLike> = Vec::new();
    let mut j: usize = 0;
    while j < names.len()
        invariant
            j <= names@.len(),
            s.likes@.len() <= i32::MAX,
            r@ == grouped_likes_spec(s.likes@, names@.take(j as int)),
        decreases names@.len() - j,
    {
        let c = count_likes(s, &names[j]);
        proof {
            assert(names@.take(j as int + 1) =~= names@.take(j as int).push(names@[j as int]));
            lemma_filter_push(
                names@.take(j as int),
                names@[j as int],
                |n: String| like_count(s.likes@, n@) > 0,
            );
            let pred = |n: String| like_count(s.likes@, n@) > 0;
            let f = |n: String| GroupedLike { package: n, likes: like_count(s.likes@, n@) as i64 };
            if pred(names@[j as int]) {
                assert(names@.take(j as int + 1).filter(pred).map_values(f) =~= names@.take(
                    j as int,
                ).filter(pred).map_values(f).push(f(names@[j as int])));
            } else {
                assert(names@.take(j as int + 1).filter(pred).map_values(f) =~= names@.take(
                    j as int,
                ).filter(pred).map_values(f));
            }
        }
        if c > 0 {
            r.push(GroupedLike { package: names[j].clone(), likes: c as i64 });
        }
        j += 1;
    }
    proof {
        assert(names@.take(names@.len() as int) =~= names@);
    }
    r
}

/// Whether the user maintains the named package.
fn maintainer_exists(ms: &Vec<Maintainer>, uid: i32, name: &String) -> (r: bool)
    ensures
        r == has_maintainer(ms@, uid, name@),
{
    let mut i: usize = 0;
    while i < ms.len()
        invariant
            i <= ms@.len(),
            forall|t: int|
                0 <= t < i ==> !((#[trigger] ms@[t]).user == uid && ms@[t].package@ == name@),
        decreases ms@.len() - i,
    {
        if ms[i].user == uid && ms[i].package.eq(name) {
            return true;
        }
        i += 1;
    }
    false
}

/// Resolves the named package's maintainer usernames through the user
/// table: one batched join, users' table order.
pub fn fetch_maintainer_names(s: &Store, name: &String) -> (r: Vec<String>)
    ensures
        name_views(r@) == maintainer_names_of(s.users@, s.maintainers@, name@),
{
    let mut r: Vec<String> = Vec::new();
    let mut i: usize = 0;
    while i < s.users.len()
        invariant
            i <= s.users@.len(),
            name_views(r@) == maintainer_names_of(s.users@.take(i as int), s.maintainers@, name@),
        decreases s.users@.len() - i,
    {
        let u = &s.users[i];
        proof {
            assert(s.users@.take(i as int + 1) =~= s.users@.take(i as int).push(
                s.users@[i as int],
            ));
            lemma_filter_push(
                s.users@.take(i as int),
                s.users@[i as int],
                |u: User| has_maintainer(s.maintainers@, u.id, name@),
            );
            let pred = |u: User| has_maintainer(s.maintainers@, u.id, name@);
            let f = |u: User| u.username@;
            if pred(s.users@[i as int]) {
                assert(s.users@.take(i as int + 1).filter(pred).map_values(f) =~= s.users@.take(
                    i as int,
                ).filter(pred).map_values(f).push(f(s.users@[i as int])));
            } else {
                assert(s.users@.take(i as int + 1).filter(pred).map_values(f) =~= s.users@.take(
                    i as int,
                ).filter(pred).map_values(f));
            }
        }
        if maintainer_exists(&s.maintainers, u.id, name) {
            let ghost before = r@;
            r.push(u.username.clone());
            proof {
                assert(name_views(r@) =~= name_views(before).push(u.username@));
            }
        }
        i += 1;
    }
    proof {
        assert(s.users@.take(s.users@.len() as int) =~= s.users@);
    }
    r
}

/// First position of the user carrying the id.
fn find_user_by_id(users: &Vec<User>, uid: i32) -> (r: Option<usize>)
    ensures
        match r {
            Some(i) => i < users@.len() && first_user_by_id(users@, uid) == Some(users@[i as int]),
            None => first_user_by_id(users@, uid) is None,
        },
{
    proof {
        assert(users@.skip(0) =~= users@);
    }
    let mut i: usize = 0;
    while i < users.len()
        invariant
            i <= users@.len(),
            first_user_by_id(users@, uid) == first_user_by_id(users@.skip(i as int), uid),
        decreases users@.len() - i,
    {
        proof {
            assert(users@.skip(i as int).len() > 0);
            assert(users@.skip(i as int)[0] == users@[i as int]);
            assert(users@.skip(i as int).drop_first() =~= users@.skip(i as int + 1));
        }
        if users[i].id == uid {
            return Some(i);
        }
        i += 1;
    }
    assert(users@.skip(users@.len() as int).len() == 0);
    None
}

/// Resolves each maintainer link to its user's username, in link order. A
/// link whose user id matches no user is an internal consistency
/// violation.
pub fn resolve_usernames(ms: &Vec<Maintainer>, users: &Vec<User>) -> (r: Result<
    Vec<String>,
    DbError,
>)
    ensures
        match r {
            Ok(names) => {
                &&& names@.len() == ms@.len()
                &&& forall|j: int|
                    0 <= j < ms@.len() ==> first_user_by_id(users@, (#[trigger] ms@[j]).user)
                        is Some
                &&& forall|j: int|
                    0 <= j < ms@.len() ==> (#[trigger] names@[j])@ == first_user_by_id(
                        users@,
                        ms@[j].user,
                    )->Some_0.username@
            },
            Err(e) => {
                &&& e == DbError::InternalConsistency
                &&& exists|j: int|
                    0 <= j < ms@.len() && first_user_by_id(users@, (#[trigger] ms@[j]).user)
                        is None
            },
        },
{
    let mut r: Vec<String> = Vec::new();
    let mut j: usize = 0;
    while j < ms.len()
        invariant
            j <= ms@.len(),
            r@.len() == j,
            forall|t: int|
                0 <= t < j ==> first_user_by_id(users@, (#[trigger] ms@[t]).user) is Some,
            forall|t: int|
                0 <= t < j ==> (#[trigger] r@[t])@ == first_user_by_id(
                    users@,
                    ms@[t].user,
                )->Some_0.username@,
        decreases ms@.len() - j,
    {
        match find_user_by_id(users, ms[j].user) {
            Some(i) => {
                r.push(users[i].username.clone());
            },
            None => {
                return Err(DbError::InternalConsistency);
            },
        }
        j += 1;
    }
    Ok(r)
}

// ------------------------------------------------------------ key extraction

/// The ids of a version list, in order.
pub open spec fn version_ids(vs: Seq<Version>) -> Seq<i32> {
    vs.map_values(|v: Version| v.id)
}

/// The owning-version keys of a dependency list, in order.
pub open spec fn dep_versions(ds: Seq<Dependency>) -> Seq<i32> {
    ds.map_values(|d: Dependency| d.version)
}

/// The ids of a dependency list, in order.
pub open spec fn dep_ids(ds: Seq<Dependency>) -> Seq<i32> {
    ds.map_values(|d: Dependency| d.id)
}

/// Collects the ids of the versions.
pub fn collect_version_ids(vs: &Vec<Version>) -> (r: Vec<i32>)
    ensures
        r@ == version_ids(vs@),
{
    let mut r: Vec<i32> = Vec::new();
    let mut i: usize = 0;
    while i < vs.len()
        invariant
            i <= vs@.len(),
            r@ == version_ids(vs@.take(i as int)),
        decreases vs@.len() - i,
    {
        r.push(vs[i].id);
        proof {
            assert(r@ =~= version_ids(vs@.take(i as int + 1)));
        }
        i += 1;
    }
    proof {
        assert(vs@.take(vs@.len() as int) =~= vs@);
    }
    r
}

/// Collects the owning-version keys of the dependencies.
pub fn collect_dep_versions(ds: &Vec<Dependency>) -> (r: Vec<i32>)
    ensures
        r@ == dep_versions(ds@),
{
    let mut r: Vec<i32> = Vec::new();
    let mut i: usize = 0;
    while i < ds.len()
        invariant
            i <= ds@.len(),
            r@ == dep_versions(ds@.take(i as int)),
        decreases ds@.len() - i,
    {
        r.push(ds[i].version);
        proof {
            assert(r@ =~= dep_versions(ds@.take(i as int + 1)));
        }
        i += 1;
    }
    proof {
        assert(ds@.take(ds@.len() as int) =~= ds@);
    }
    r
}

/// Collects the ids of the dependencies.
pub fn collect_dep_ids(ds: &Vec<Dependency>) -> (r: Vec<i32>)
    ensures
        r@ == dep_ids(ds@),
{
    let mut r: Vec<i32> = Vec::new();
    let mut i: usize = 0;
    while i < ds.len()
        invariant
            i <= ds@.len(),
            r@ == dep_ids(ds@.take(i as int)),
        decreases ds@.len() - i,
    {
        r.push(ds[i].id);
        proof {
            assert(r@ =~= dep_ids(ds@.take(i as int + 1)));
        }
        i += 1;
    }
    proof {
        assert(ds@.take(ds@.len() as int) =~= ds@);
    }
    r
}

/// Collects the owning-version keys of the file-tree entries.
pub fn collect_content_versions(cs: &Vec<ContentNode>) -> (r: Vec<i32>)
    ensures
        r@ == cs@.map_values(|c: ContentNode| c.version),
{
    let mut r: Vec<i32> = Vec::new();
    let mut i: usize = 0;
    while i < cs.len()
        invariant
            i <= cs@.len(),
            r@ == cs@.take(i as int).map_values(|c: ContentNode| c.version),
        decreases cs@.len() - i,
    {
        r.push(cs[i].version);
        proof {
            assert(r@ =~= cs@.take(i as int + 1).map_values(|c: ContentNode| c.version));
        }
        i += 1;
    }
    proof {
        assert(cs@.take(cs@.len() as int) =~= cs@);
    }
    r
}

/// Collects the owning-version keys of the text bundles.
pub fn collect_text_versions(ts: &Vec<VersionText>) -> (r: Vec<i32>)
    ensures
        r@ == ts@.map_values(|t: VersionText| t.version),
{
    let mut r: Vec<i32> = Vec::new();
    let mut i: usize = 0;
    while i < ts.len()
        invariant
            i <= ts@.len(),
            r@ == ts@.take(i as int).map_values(|t: VersionText| t.version),
        decreases ts@.len() - i,
    {
        r.push(ts[i].version);
        proof {
            assert(r@ =~= ts@.take(i as int + 1).map_values(|t: VersionText| t.version));
        }
        i += 1;
    }
    proof {
        assert(ts@.take(ts@.len() as int) =~= ts@);
    }
    r
}

/// Collects the owning-dependency keys of the dependency descriptions.
pub fn collect_depdesc_deps(dds: &Vec<DependencyDescription>) -> (r: Vec<i32>)
    ensures
        r@ == dds@.map_values(|d: DependencyDescription| d.dependency),
{
    let mut r: Vec<i32> = Vec::new();
    let mut i: usize = 0;
    while i < dds.len()
        invariant
            i <= dds@.len(),
            r@ == dds@.take(i as int).map_values(|d: DependencyDescription| d.dependency),
        decreases dds@.len() - i,
    {
        r.push(dds[i].dependency);
        proof {
            assert(r@ =~= dds@.take(i as int + 1).map_values(
                |d: DependencyDescription| d.dependency,
            ));
        }
        i += 1;
    }
    proof {
        assert(dds@.take(dds@.len() as int) =~= dds@);
    }
    r
}

/// Collects the names of the packages, in order.
pub fn collect_package_names(ps: &Vec<crate::rows::Package>) -> (r: Vec<String>)
    ensures
        r@.len() == ps@.len(),
        forall|i: int| 0 <= i < ps@.len() ==> #[trigger] r@[i] == ps@[i].name,
        name_views(r@) == crate::store::package_names(ps@),
{
    let mut r: Vec<String> = Vec::new();
    let mut i: usize = 0;
    while i < ps.len()
        invariant
            i <= ps@.len(),
            r@.len() == i,
            forall|t: int| 0 <= t < i ==> #[trigger] r@[t] == ps@[t].name,
        decreases ps@.len() - i,
    {
        r.push(ps[i].name.clone());
        i += 1;
    }
    proof {
        assert(name_views(r@) =~= crate::store::package_names(ps@));
    }
    r
}

/// Collects the owning-package keys of the versions.
pub fn collect_version_packages(vs: &Vec<Version>) -> (r: Vec<String>)
    ensures
        r@.len() == vs@.len(),
        forall|i: int| 0 <= i < vs@.len() ==> #[trigger] r@[i] == vs@[i].package,
        name_views(r@) == vs@.map_values(|v: Version| v.package@),
{
    let mut r: Vec<String> = Vec::new();
    let mut i: usize = 0;
    while i < vs.len()
        invariant
            i <= vs@.len(),
            r@.len() == i,
            forall|t: int| 0 <= t < i ==> #[trigger] r@[t] == vs@[t].package,
        decreases vs@.len() - i,
    {
        r.push(vs[i].package.clone());
        i += 1;
    }
    proof {
        assert(name_views(r@) =~= vs@.map_values(|v: Version| v.package@));
    }
    r
}

/// Collects the owning-package keys of the descriptions.
pub fn collect_description_packages(ds: &Vec<Description>) -> (r: Vec<String>)
    ensures
        r@.len() == ds@.len(),
        forall|i: int| 0 <= i < ds@.len() ==> #[trigger] r@[i] == ds@[i].package,
        name_views(r@) == ds@.map_values(|d: Description| d.package@),
{
    let mut r: Vec<String> = Vec::new();
    let mut i: usize = 0;
    while i < ds.len()
        invariant
            i <= ds@.len(),
            r@.len() == i,
            forall|t: int| 0 <= t < i ==> #[trigger] r@[t] == ds@[t].package,
        decreases ds@.len() - i,
    {
        r.push(ds[i].package.clone());
        i += 1;
    }
    proof {
        assert(name_views(r@) =~= ds@.map_values(|d: Description| d.package@));
    }
    r
}

/// Collects the owning-package keys of the maintainer links.
pub fn collect_maintainer_packages(ms: &Vec<Maintainer>) -> (r: Vec<String>)
    ensures
        r@.len() == ms@.len(),
        forall|i: int| 0 <= i < ms@.len() ==> #[trigger] r@[i] == ms@[i].package,
        name_views(r@) == ms@.map_values(|m: Maintainer| m.package@),
{
    let mut r: Vec<String> = Vec::new();
    let mut i: usize = 0;
    while i < ms.len()
        invariant
            i <= ms@.len(),
            r@.len() == i,
            forall|t: int| 0 <= t < i ==> #[trigger] r@[t] == ms@[t].package,
        decreases ms@.len() - i,
    {
        r.push(ms[i].package.clone());
        i += 1;
    }
    proof {
        assert(name_views(r@) =~= ms@.map_values(|m: Maintainer| m.package@));
    }
    r
}

} // verus!
