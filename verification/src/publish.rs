//! The publish transaction coordinator: validates a candidate package graph
//! and inserts the package with its whole version, dependency, content and
//! text graph as one atomic unit, wiring generated identifiers from parent
//! inserts into child inserts. Any failure leaves the store exactly as it
//! was.

use vstd::prelude::*;

use crate::assemble::find_package;
use crate::casing::{lower_of, lowercase};
use crate::dependency;
use crate::domain::Localized;
use crate::error::DbError;
use crate::package;
use crate::rows::{
    ContentNode, Dependency, DependencyDescription, Description, Maintainer, Package, User,
    Version, VersionText,
};
use crate::store::{first_lower_match, Store};
use crate::version;

verus! {

// ----------------------------------------------------------- the validations

/// Two versions of the candidate share a version string.
pub open spec fn has_dup_version_strings(vs: Seq<version::Full>) -> bool {
    exists|i: int, j: int|
        0 <= i < j < vs.len() && (#[trigger] vs[i]).version@ == (#[trigger] vs[j]).version@
}

/// Some localized entry's language occurs twice.
pub open spec fn has_dup_langs(ls: Seq<Localized>) -> bool {
    exists|i: int, j: int|
        0 <= i < j < ls.len() && (#[trigger] ls[i]).language == (#[trigger] ls[j]).language
}

/// Whether some changelog entry carries the language.
pub open spec fn changes_has_lang(cs: Seq<Localized>, lang: crate::types::Language) -> bool {
    exists|i: int| 0 <= i < cs.len() && (#[trigger] cs[i]).language == lang
}

/// Every readme language of one version has a matching changelog entry.
pub open spec fn version_texts_ok(v: version::Full) -> bool {
    forall|j: int|
        0 <= j < v.readme@.len() ==> changes_has_lang(
            v.changes@,
            (#[trigger] v.readme@[j]).language,
        )
}

/// Every readme language of every version has a matching changelog entry.
pub open spec fn texts_ok(vs: Seq<version::Full>) -> bool {
    forall|i: int| 0 <= i < vs.len() ==> version_texts_ok(#[trigger] vs[i])
}

/// Some version's readme lists a language twice.
pub open spec fn has_dup_readme_langs(vs: Seq<version::Full>) -> bool {
    exists|i: int| 0 <= i < vs.len() && has_dup_langs((#[trigger] vs[i]).readme@)
}

/// Every maintainer username resolves, case-insensitively, to a user.
pub open spec fn maintainers_ok(users: Seq<User>, ms: Seq<crate::user::Short>) -> bool {
    forall|j: int|
        0 <= j < ms.len() ==> first_lower_match(
            users,
            lower_of((#[trigger] ms[j]).username@),
        ) is Some
}

/// Two maintainer entries name the same user up to case folding.
pub open spec fn has_dup_maintainers(ms: Seq<crate::user::Short>) -> bool {
    exists|i: int, j: int|
        0 <= i < j < ms.len() && lower_of((#[trigger] ms[i]).username@) == lower_of(
            (#[trigger] ms[j]).username@,
        )
}

/// Total number of dependency rows the candidate will insert.
pub open spec fn total_deps(vs: Seq<version::Full>) -> int
    decreases vs.len(),
{
    if vs.len() == 0 {
        0
    } else {
        total_deps(vs.drop_last()) + vs.last().dependencies@.len()
    }
}

/// Total number of content rows the candidate will insert.
pub open spec fn total_contents(vs: Seq<version::Full>) -> int
    decreases vs.len(),
{
    if vs.len() == 0 {
        0
    } else {
        total_contents(vs.drop_last()) + vs.last().contents@.len()
    }
}

/// The store has room for every id and stamp the publish will assign.
pub open spec fn has_room(s: Store, g: package::Full) -> bool {
    &&& s.packages@.len() + 1 <= i32::MAX
    &&& s.next_version_id + g.versions@.len() <= i32::MAX
    &&& s.next_dependency_id + total_deps(g.versions@) <= i32::MAX
    &&& s.next_content_id + total_contents(g.versions@) <= i32::MAX
    &&& s.clock < i64::MAX
}

/// The first failure a publish of `g` against `s` reports, in the order the
/// coordinator checks: a name conflict; then the store's own constraints
/// and validations along the insert order — duplicate version strings, a
/// readme language without its changelog, a duplicate readme or
/// description language, an unresolved or duplicate maintainer, and
/// finally exhausted id or clock space.
pub open spec fn publish_check(s: Store, g: package::Full) -> Option<DbError> {
    if find_package(s.packages@, g.name@) is Some {
        Some(DbError::Conflict)
    } else if has_dup_version_strings(g.versions@) {
        Some(DbError::StoreError)
    } else if !texts_ok(g.versions@) {
        Some(DbError::ValidationFailure)
    } else if has_dup_readme_langs(g.versions@) {
        Some(DbError::StoreError)
    } else if has_dup_langs(g.description@) {
        Some(DbError::StoreError)
    } else if !maintainers_ok(s.users@, g.maintainers@) {
        Some(DbError::ValidationFailure)
    } else if has_dup_maintainers(g.maintainers@) {
        Some(DbError::StoreError)
    } else if !has_room(s, g) {
        Some(DbError::StoreError)
    } else {
        None
    }
}

// ----------------------------------------------------- the inserted row sets

/// What the inserted package row holds.
pub open spec fn pushed_package_ok(p: Package, g: package::Full, now: i64) -> bool {
    &&& p.name == g.name
    &&& p.website == g.website
    &&& p.license == g.license
    &&& p.authors@ == g.authors@
    &&& p.downloads == 0
    &&& p.created == now
    &&& p.updated == now
}

/// The first `n` version rows, ids assigned in batch order from `vid0`.
pub open spec fn version_rows_upto(g: package::Full, vid0: int, now: i64, n: int) -> Seq<Version> {
    Seq::new(
        n as nat,
        |i: int| Version {
            id: (vid0 + i) as i32,
            package: g.name,
            version: g.versions@[i].version,
            created: now,
        },
    )
}

/// All version rows a publish inserts.
pub open spec fn new_version_rows(g: package::Full, vid0: int, now: i64) -> Seq<Version> {
    version_rows_upto(g, vid0, now, g.versions@.len() as int)
}

/// The first `n` dependency rows of one version, ids from `did0`.
pub open spec fn dep_rows_ver_upto(v: version::Full, name: String, vid: int, did0: int, n: int)
    -> Seq<Dependency> {
    Seq::new(
        n as nat,
        |j: int| Dependency {
            id: (did0 + j) as i32,
            package: name,
            version: vid as i32,
            target: v.dependencies@[j].package,
            spec_str: v.dependencies@[j].spec_str,
            dep_type: v.dependencies@[j].dep_type,
        },
    )
}

/// The dependency rows of one version.
pub open spec fn dep_rows_for_version(v: version::Full, name: String, vid: int, did0: int) -> Seq<
    Dependency,
> {
    dep_rows_ver_upto(v, name, vid, did0, v.dependencies@.len() as int)
}

/// The dependency rows of the first `i` versions, flattened in insert order.
pub open spec fn dep_rows_upto(g: package::Full, vid0: int, did0: int, i: int) -> Seq<Dependency>
    decreases i,
{
    if i <= 0 {
        Seq::empty()
    } else {
        dep_rows_upto(g, vid0, did0, i - 1) + dep_rows_for_version(
            g.versions@[i - 1],
            g.name,
            vid0 + i - 1,
            did0 + total_deps(g.versions@.take(i - 1)),
        )
    }
}

/// All dependency rows a publish inserts.
pub open spec fn new_dep_rows(g: package::Full, vid0: int, did0: int) -> Seq<Dependency> {
    dep_rows_upto(g, vid0, did0, g.versions@.len() as int)
}

/// The first `n` content rows of one version, ids from `cid0`.
pub open spec fn content_rows_ver_upto(v: version::Full, vid: int, cid0: int, n: int) -> Seq<
    ContentNode,
> {
    Seq::new(
        n as nat,
        |t: int| ContentNode {
            id: (cid0 + t) as i32,
            version: vid as i32,
            path: v.contents@[t].path,
            node_type: v.contents@[t].node_type,
        },
    )
}

/// The content rows of the first `i` versions, flattened in insert order.
pub open spec fn content_rows_upto(g: package::Full, vid0: int, cid0: int, i: int) -> Seq<
    ContentNode,
>
    decreases i,
{
    if i <= 0 {
        Seq::empty()
    } else {
        content_rows_upto(g, vid0, cid0, i - 1) + content_rows_ver_upto(
            g.versions@[i - 1],
            vid0 + i - 1,
            cid0 + total_contents(g.versions@.take(i - 1)),
            g.versions@[i - 1].contents@.len() as int,
        )
    }
}

/// All content rows a publish inserts.
pub open spec fn new_content_rows(g: package::Full, vid0: int, cid0: int) -> Seq<ContentNode> {
    content_rows_upto(g, vid0, cid0, g.versions@.len() as int)
}

/// The text of the last changelog entry in the language — the one the
/// coordinator pairs with a readme of that language.
pub open spec fn last_changes_text(cs: Seq<Localized>, lang: crate::types::Language) -> String
    decreases cs.len(),
{
    if cs.len() == 0 {
        arbitrary()
    } else if cs.last().language == lang {
        cs.last().text
    } else {
        last_changes_text(cs.drop_last(), lang)
    }
}

/// The first `n` text rows of one version: one per readme entry, paired
/// with the changelog entry of the same language.
pub open spec fn text_rows_ver_upto(v: version::Full, vid: int, n: int) -> Seq<VersionText> {
    Seq::new(
        n as nat,
        |j: int| VersionText {
            version: vid as i32,
            language: v.readme@[j].language,
            changes: last_changes_text(v.changes@, v.readme@[j].language),
            readme: v.readme@[j].text,
        },
    )
}

/// The text rows of the first `i` versions, flattened in insert order.
pub open spec fn text_rows_upto(g: package::Full, vid0: int, i: int) -> Seq<VersionText>
    decreases i,
{
    if i <= 0 {
        Seq::empty()
    } else {
        text_rows_upto(g, vid0, i - 1) + text_rows_ver_upto(
            g.versions@[i - 1],
            vid0 + i - 1,
            g.versions@[i - 1].readme@.len() as int,
        )
    }
}

/// All version-text rows a publish inserts.
pub open spec fn new_text_rows(g: package::Full, vid0: int) -> Seq<VersionText> {
    text_rows_upto(g, vid0, g.versions@.len() as int)
}

/// All package-description rows a publish inserts, in list order.
pub open spec fn new_description_rows(g: package::Full) -> Seq<Description> {
    g.description@.map_values(
        |d: Localized| Description { package: g.name, language: d.language, description: d.text },
    )
}

/// All maintainer rows a publish inserts: one per entry, resolved to the
/// first user whose folded username matches.
pub open spec fn new_maintainer_rows(users: Seq<User>, g: package::Full) -> Seq<Maintainer> {
    Seq::new(
        g.maintainers@.len(),
        |j: int| Maintainer {
            user: first_lower_match(users, lower_of(g.maintainers@[j].username@))->Some_0.id,
            package: g.name,
        },
    )
}

/// First position among the dependencies whose target has these characters.
pub open spec fn first_dep_with_target(ds: Seq<dependency::Full>, target: Seq<char>) -> int
    decreases ds.len(),
{
    if ds.len() == 0 {
        0
    } else if ds[0].package@ == target {
        0
    } else {
        1 + first_dep_with_target(ds.drop_first(), target)
    }
}

/// The first `n` description rows of one dependency: present only for an
/// optional dependency that provides descriptions.
pub open spec fn depdesc_rows_for_dep_upto(d: dependency::Full, did: int, n: int) -> Seq<
    DependencyDescription,
> {
    if d.dep_type is Optional && d.description is Some {
        Seq::new(
            n as nat,
            |t: int| DependencyDescription {
                dependency: did as i32,
                language: d.description->Some_0@[t].language,
                description: d.description->Some_0@[t].text,
            },
        )
    } else {
        Seq::empty()
    }
}

/// The description rows of one dependency: present only for an optional
/// dependency that provides descriptions, one row per entry, owned by the
/// dependency id the (version id, target) lookup resolves to.
pub open spec fn depdesc_rows_for_dep(d: dependency::Full, did: int) -> Seq<DependencyDescription> {
    if d.dep_type is Optional && d.description is Some {
        depdesc_rows_for_dep_upto(d, did, d.description->Some_0@.len() as int)
    } else {
        Seq::empty()
    }
}

/// The description rows of one version's first `j` dependencies.
pub open spec fn depdesc_rows_ver_upto(v: version::Full, did0v: int, j: int) -> Seq<
    DependencyDescription,
>
    decreases j,
{
    if j <= 0 {
        Seq::empty()
    } else {
        depdesc_rows_ver_upto(v, did0v, j - 1) + depdesc_rows_for_dep(
            v.dependencies@[j - 1],
            did0v + first_dep_with_target(v.dependencies@, v.dependencies@[j - 1].package@),
        )
    }
}

/// The dependency-description rows of the first `i` versions.
pub open spec fn depdesc_rows_upto(g: package::Full, did0: int, i: int) -> Seq<
    DependencyDescription,
>
    decreases i,
{
    if i <= 0 {
        Seq::empty()
    } else {
        depdesc_rows_upto(g, did0, i - 1) + depdesc_rows_ver_upto(
            g.versions@[i - 1],
            did0 + total_deps(g.versions@.take(i - 1)),
            g.versions@[i - 1].dependencies@.len() as int,
        )
    }
}

/// All dependency-description rows a publish inserts.
pub open spec fn new_depdesc_rows(g: package::Full, did0: int) -> Seq<DependencyDescription> {
    depdesc_rows_upto(g, did0, g.versions@.len() as int)
}

/// How a successful publish relates the store before and after: every table
/// keeps its rows and gains exactly the candidate's row sets, counters
/// advance by what was assigned, and the clock ticks once.
pub open spec fn publish_applied(s0: Store, s1: Store, g: package::Full) -> bool {
    &&& s1.packages@.len() == s0.packages@.len() + 1
    &&& s1.packages@.take(s0.packages@.len() as int) == s0.packages@
    &&& pushed_package_ok(s1.packages@.last(), g, s0.clock)
    &&& s1.versions@ == s0.versions@ + new_version_rows(g, s0.next_version_id as int, s0.clock)
    &&& s1.dependencies@ == s0.dependencies@ + new_dep_rows(
        g,
        s0.next_version_id as int,
        s0.next_dependency_id as int,
    )
    &&& s1.contents@ == s0.contents@ + new_content_rows(
        g,
        s0.next_version_id as int,
        s0.next_content_id as int,
    )
    &&& s1.version_texts@ == s0.version_texts@ + new_text_rows(g, s0.next_version_id as int)
    &&& s1.descriptions@ == s0.descriptions@ + new_description_rows(g)
    &&& s1.maintainers@ == s0.maintainers@ + new_maintainer_rows(s0.users@, g)
    &&& s1.dependency_descriptions@ == s0.dependency_descriptions@ + new_depdesc_rows(
        g,
        s0.next_dependency_id as int,
    )
    &&& s1.users == s0.users
    &&& s1.likes == s0.likes
    &&& s1.next_user_id == s0.next_user_id
    &&& s1.next_version_id == s0.next_version_id + g.versions@.len()
    &&& s1.next_dependency_id == s0.next_dependency_id + total_deps(g.versions@)
    &&& s1.next_content_id == s0.next_content_id + total_contents(g.versions@)
    &&& s1.clock == s0.clock + 1
}

// --------------------------------------------------------- structure lemmas

/// An absent package name matches no row.
pub proof fn lemma_find_package_none(ps: Seq<Package>, name: Seq<char>)
    requires
        find_package(ps, name) is None,
    ensures
        forall|i: int| 0 <= i < ps.len() ==> (#[trigger] ps[i]).name@ != name,
    decreases ps.len(),
{
    if ps.len() > 0 {
        lemma_find_package_none(ps.drop_first(), name);
        assert forall|i: int| 0 <= i < ps.len() implies (#[trigger] ps[i]).name@ != name by {
            if i > 0 {
                assert(ps.drop_first()[i - 1] == ps[i]);
            }
        }
    }
}

pub proof fn lemma_total_deps_take_step(vs: Seq<version::Full>, i: int)
    requires
        0 <= i < vs.len(),
    ensures
        total_deps(vs.take(i + 1)) == total_deps(vs.take(i)) + vs[i].dependencies@.len(),
{
    assert(vs.take(i + 1).drop_last() =~= vs.take(i));
    assert(vs.take(i + 1).last() == vs[i]);
}

pub proof fn lemma_total_contents_take_step(vs: Seq<version::Full>, i: int)
    requires
        0 <= i < vs.len(),
    ensures
        total_contents(vs.take(i + 1)) == total_contents(vs.take(i)) + vs[i].contents@.len(),
{
    assert(vs.take(i + 1).drop_last() =~= vs.take(i));
    assert(vs.take(i + 1).last() == vs[i]);
}

pub proof fn lemma_total_deps_bounds(vs: Seq<version::Full>, i: int)
    requires
        0 <= i <= vs.len(),
    ensures
        0 <= total_deps(vs.take(i)) <= total_deps(vs),
    decreases vs.len() - i,
{
    if i == vs.len() {
        assert(vs.take(i) =~= vs);
        lemma_total_deps_nonneg(vs);
    } else {
        lemma_total_deps_take_step(vs, i);
        lemma_total_deps_bounds(vs, i + 1);
        lemma_total_deps_nonneg(vs.take(i));
    }
}

pub proof fn lemma_total_deps_nonneg(vs: Seq<version::Full>)
    ensures
        total_deps(vs) >= 0,
    decreases vs.len(),
{
    if vs.len() > 0 {
        lemma_total_deps_nonneg(vs.drop_last());
    }
}

pub proof fn lemma_total_contents_bounds(vs: Seq<version::Full>, i: int)
    requires
        0 <= i <= vs.len(),
    ensures
        0 <= total_contents(vs.take(i)) <= total_contents(vs),
    decreases vs.len() - i,
{
    if i == vs.len() {
        assert(vs.take(i) =~= vs);
        lemma_total_contents_nonneg(vs);
    } else {
        lemma_total_contents_take_step(vs, i);
        lemma_total_contents_bounds(vs, i + 1);
        lemma_total_contents_nonneg(vs.take(i));
    }
}

pub proof fn lemma_total_contents_nonneg(vs: Seq<version::Full>)
    ensures
        total_contents(vs) >= 0,
    decreases vs.len(),
{
    if vs.len() > 0 {
        lemma_total_contents_nonneg(vs.drop_last());
    }
}

/// A target that occurs at position `j` is first found at or before `j`.
pub proof fn lemma_first_dep_le(ds: Seq<dependency::Full>, target: Seq<char>, j: int)
    requires
        0 <= j < ds.len(),
        ds[j].package@ == target,
    ensures
        0 <= first_dep_with_target(ds, target) <= j,
    decreases ds.len(),
{
    if ds.len() > 0 && ds[0].package@ != target {
        assert(ds.drop_first()[j - 1] == ds[j]);
        lemma_first_dep_le(ds.drop_first(), target, j - 1);
    }
}

/// Shape of the flattened dependency rows: one row per flat position, ids
/// sequential from `did0`, version fields within the new id range.
pub proof fn lemma_dep_rows_flat(g: package::Full, vid0: int, did0: int, i: int)
    requires
        0 <= i <= g.versions@.len(),
        0 <= vid0,
        vid0 + g.versions@.len() <= i32::MAX,
        0 <= did0,
        did0 + total_deps(g.versions@) <= i32::MAX,
    ensures
        dep_rows_upto(g, vid0, did0, i).len() == total_deps(g.versions@.take(i)),
        forall|w: int|
            0 <= w < dep_rows_upto(g, vid0, did0, i).len() ==> (#[trigger] dep_rows_upto(
                g,
                vid0,
                did0,
                i,
            )[w]).id == did0 + w,
        forall|w: int|
            0 <= w < dep_rows_upto(g, vid0, did0, i).len() ==> vid0 <= (#[trigger] dep_rows_upto(
                g,
                vid0,
                did0,
                i,
            )[w]).version < vid0 + i,
    decreases i,
{
    if i > 0 {
        lemma_dep_rows_flat(g, vid0, did0, i - 1);
        lemma_total_deps_take_step(g.versions@, i - 1);
        let left = dep_rows_upto(g, vid0, did0, i - 1);
        let right = dep_rows_for_version(
            g.versions@[i - 1],
            g.name,
            vid0 + i - 1,
            did0 + total_deps(g.versions@.take(i - 1)),
        );
        assert(dep_rows_upto(g, vid0, did0, i) == left + right);
        lemma_total_deps_bounds(g.versions@, i);
        lemma_total_deps_bounds(g.versions@, i - 1);
        assert forall|w: int| 0 <= w < (left + right).len() implies {
            &&& (#[trigger] (left + right)[w]).id == did0 + w
            &&& vid0 <= (left + right)[w].version < vid0 + i
        } by {
            if w < left.len() {
                assert((left + right)[w] == left[w]);
            } else {
                assert((left + right)[w] == right[w - left.len()]);
            }
        }
    }
}

/// Shape of the flattened content rows: version fields in the new id range.
pub proof fn lemma_content_rows_flat(g: package::Full, vid0: int, cid0: int, i: int)
    requires
        0 <= i <= g.versions@.len(),
        0 <= vid0,
        vid0 + g.versions@.len() <= i32::MAX,
    ensures
        content_rows_upto(g, vid0, cid0, i).len() == total_contents(g.versions@.take(i)),
        forall|w: int|
            0 <= w < content_rows_upto(g, vid0, cid0, i).len() ==> vid0
                <= (#[trigger] content_rows_upto(g, vid0, cid0, i)[w]).version < vid0 + i,
    decreases i,
{
    if i > 0 {
        lemma_content_rows_flat(g, vid0, cid0, i - 1);
        lemma_total_contents_take_step(g.versions@, i - 1);
        let left = content_rows_upto(g, vid0, cid0, i - 1);
        let right = content_rows_ver_upto(
            g.versions@[i - 1],
            vid0 + i - 1,
            cid0 + total_contents(g.versions@.take(i - 1)),
            g.versions@[i - 1].contents@.len() as int,
        );
        assert(content_rows_upto(g, vid0, cid0, i) == left + right);
        assert forall|w: int| 0 <= w < (left + right).len() implies vid0 <= (#[trigger] (left
            + right)[w]).version < vid0 + i by {
            if w < left.len() {
                assert((left + right)[w] == left[w]);
            } else {
                assert((left + right)[w] == right[w - left.len()]);
            }
        }
    }
}

/// Shape of the flattened text rows: version fields in the new id range.
pub proof fn lemma_text_rows_flat(g: package::Full, vid0: int, i: int)
    requires
        0 <= i <= g.versions@.len(),
        0 <= vid0,
        vid0 + g.versions@.len() <= i32::MAX,
    ensures
        forall|w: int|
            0 <= w < text_rows_upto(g, vid0, i).len() ==> vid0 <= (#[trigger] text_rows_upto(
                g,
                vid0,
                i,
            )[w]).version < vid0 + i,
    decreases i,
{
    if i > 0 {
        lemma_text_rows_flat(g, vid0, i - 1);
        let left = text_rows_upto(g, vid0, i - 1);
        let right = text_rows_ver_upto(
            g.versions@[i - 1],
            vid0 + i - 1,
            g.versions@[i - 1].readme@.len() as int,
        );
        assert(text_rows_upto(g, vid0, i) == left + right);
        assert forall|w: int| 0 <= w < (left + right).len() implies vid0 <= (#[trigger] (left
            + right)[w]).version < vid0 + i by {
            if w < left.len() {
                assert((left + right)[w] == left[w]);
            } else {
                assert((left + right)[w] == right[w - left.len()]);
            }
        }
    }
}

/// Shape of the dependency-description rows of one version: owners within
/// that version's dependency id block.
pub proof fn lemma_depdesc_ver_range(v: version::Full, did0v: int, j: int)
    requires
        0 <= j <= v.dependencies@.len(),
        0 <= did0v,
        did0v + v.dependencies@.len() <= i32::MAX,
    ensures
        forall|w: int|
            0 <= w < depdesc_rows_ver_upto(v, did0v, j).len() ==> did0v
                <= (#[trigger] depdesc_rows_ver_upto(v, did0v, j)[w]).dependency < did0v
                + v.dependencies@.len(),
    decreases j,
{
    if j > 0 {
        lemma_depdesc_ver_range(v, did0v, j - 1);
        lemma_first_dep_le(v.dependencies@, v.dependencies@[j - 1].package@, j - 1);
        let left = depdesc_rows_ver_upto(v, did0v, j - 1);
        let right = depdesc_rows_for_dep(
            v.dependencies@[j - 1],
            did0v + first_dep_with_target(v.dependencies@, v.dependencies@[j - 1].package@),
        );
        assert(depdesc_rows_ver_upto(v, did0v, j) == left + right);
        assert forall|w: int| 0 <= w < (left + right).len() implies did0v <= (#[trigger] (left
            + right)[w]).dependency < did0v + v.dependencies@.len() by {
            if w < left.len() {
                assert((left + right)[w] == left[w]);
            } else {
                assert((left + right)[w] == right[w - left.len()]);
            }
        }
    }
}

/// Shape of the flattened dependency-description rows: owners within the
/// new dependency id range.
pub proof fn lemma_depdesc_rows_range(g: package::Full, did0: int, i: int)
    requires
        0 <= i <= g.versions@.len(),
        0 <= did0,
        did0 + total_deps(g.versions@) <= i32::MAX,
    ensures
        forall|w: int|
            0 <= w < depdesc_rows_upto(g, did0, i).len() ==> did0 <= (#[trigger] depdesc_rows_upto(
                g,
                did0,
                i,
            )[w]).dependency < did0 + total_deps(g.versions@.take(i)),
    decreases i,
{
    if i > 0 {
        lemma_depdesc_rows_range(g, did0, i - 1);
        lemma_total_deps_take_step(g.versions@, i - 1);
        lemma_total_deps_bounds(g.versions@, i);
        lemma_total_deps_bounds(g.versions@, i - 1);
        lemma_depdesc_ver_range(
            g.versions@[i - 1],
            did0 + total_deps(g.versions@.take(i - 1)),
            g.versions@[i - 1].dependencies@.len() as int,
        );
        lemma_total_deps_nonneg(g.versions@.take(i - 1));
        let left = depdesc_rows_upto(g, did0, i - 1);
        let right = depdesc_rows_ver_upto(
            g.versions@[i - 1],
            did0 + total_deps(g.versions@.take(i - 1)),
            g.versions@[i - 1].dependencies@.len() as int,
        );
        assert(depdesc_rows_upto(g, did0, i) == left + right);
        assert forall|w: int| 0 <= w < (left + right).len() implies did0 <= (#[trigger] (left
            + right)[w]).dependency < did0 + total_deps(g.versions@.take(i)) by {
            if w < left.len() {
                assert((left + right)[w] == left[w]);
                assert(total_deps(g.versions@.take(i - 1)) <= total_deps(g.versions@.take(i)));
            } else {
                assert((left + right)[w] == right[w - left.len()]);
            }
        }
    }
}

// ------------------------------------------------------- validation helpers

/// Whether two of the candidate versions share a version string.
fn check_dup_versions(vs: &Vec<version::Full>) -> (r: bool)
    ensures
        r == has_dup_version_strings(vs@),
{
    let mut i: usize = 0;
    while i < vs.len()
        invariant
            i <= vs@.len(),
            forall|a: int, b: int|
                0 <= a < b < vs@.len() && b < i ==> (#[trigger] vs@[a]).version@
                    != (#[trigger] vs@[b]).version@,
        decreases vs@.len() - i,
    {
        let mut j: usize = 0;
        while j < i
            invariant
                j <= i < vs@.len(),
                forall|a: int| 0 <= a < j ==> (#[trigger] vs@[a]).version@ != vs@[i as int].version@,
            decreases i - j,
        {
            if vs[j].version.eq(&vs[i].version) {
                return true;
            }
            j += 1;
        }
        i += 1;
    }
    false
}

/// Whether some entry's language occurs twice in the list.
fn check_dup_langs(ls: &Vec<Localized>) -> (r: bool)
    ensures
        r == has_dup_langs(ls@),
{
    let mut i: usize = 0;
    while i < ls.len()
        invariant
            i <= ls@.len(),
            forall|a: int, b: int|
                0 <= a < b < ls@.len() && b < i ==> (#[trigger] ls@[a]).language
                    != (#[trigger] ls@[b]).language,
        decreases ls@.len() - i,
    {
        let mut j: usize = 0;
        while j < i
            invariant
                j <= i < ls@.len(),
                forall|a: int| 0 <= a < j ==> (#[trigger] ls@[a]).language != ls@[i as int].language,
            decreases i - j,
    {
            if ls[j].language == ls[i].language {
                return true;
            }
            j += 1;
        }
        i += 1;
    }
    false
}

/// Whether some changelog entry carries the language.
fn check_changes_has(cs: &Vec<Localized>, lang: crate::types::Language) -> (r: bool)
    ensures
        r == changes_has_lang(cs@, lang),
{
    let mut i: usize = 0;
    while i < cs.len()
        invariant
            i <= cs@.len(),
            forall|t: int| 0 <= t < i ==> (#[trigger] cs@[t]).language != lang,
        decreases cs@.len() - i,
    {
        if cs[i].language == lang {
            return true;
        }
        i += 1;
    }
    false
}

/// Whether every readme language of every version has its changelog entry.
fn check_texts(vs: &Vec<version::Full>) -> (r: bool)
    ensures
        r == texts_ok(vs@),
{
    let mut i: usize = 0;
    while i < vs.len()
        invariant
            i <= vs@.len(),
            forall|a: int| 0 <= a < i ==> version_texts_ok(#[trigger] vs@[a]),
        decreases vs@.len() - i,
    {
        let v = &vs[i];
        let mut j: usize = 0;
        while j < v.readme.len()
            invariant
                j <= v.readme@.len(),
                i < vs@.len(),
                v == vs@[i as int],
                forall|t: int|
                    0 <= t < j ==> changes_has_lang(
                        vs@[i as int].changes@,
                        (#[trigger] vs@[i as int].readme@[t]).language,
                    ),
            decreases v.readme@.len() - j,
        {
            if !check_changes_has(&v.changes, v.readme[j].language) {
                proof {
                    assert(!changes_has_lang(
                        vs@[i as int].changes@,
                        vs@[i as int].readme@[j as int].language,
                    ));
                    assert(!version_texts_ok(vs@[i as int]));
                    assert(!texts_ok(vs@));
                }
                return false;
            }
            j += 1;
        }
        proof {
            assert(version_texts_ok(vs@[i as int]));
        }
        i += 1;
    }
    true
}

/// Whether some version's readme lists a language twice.
fn check_dup_readme_langs(vs: &Vec<version::Full>) -> (r: bool)
    ensures
        r == has_dup_readme_langs(vs@),
{
    let mut i: usize = 0;
    while i < vs.len()
        invariant
            i <= vs@.len(),
            forall|a: int| 0 <= a < i ==> !has_dup_langs((#[trigger] vs@[a]).readme@),
        decreases vs@.len() - i,
    {
        if check_dup_langs(&vs[i].readme) {
            return true;
        }
        i += 1;
    }
    false
}

/// First user whose folded username equals the folded needle.
fn find_user_lower(users: &Vec<User>, needle: &String) -> (r: Option<usize>)
    ensures
        match r {
            Some(i) => i < users@.len() && first_lower_match(users@, lower_of(needle@)) == Some(
                users@[i as int],
            ),
            None => first_lower_match(users@, lower_of(needle@)) is None,
        },
{
    let lname = lowercase(needle.as_str());
    proof {
        assert(users@.skip(0) =~= users@);
    }
    let mut i: usize = 0;
    while i < users.len()
        invariant
            lname@ == lower_of(needle@),
            i <= users@.len(),
            first_lower_match(users@, lname@) == first_lower_match(users@.skip(i as int), lname@),
        decreases users@.len() - i,
    {
        proof {
            assert(users@.skip(i as int).len() > 0);
            assert(users@.skip(i as int)[0] == users@[i as int]);
            assert(users@.skip(i as int).drop_first() =~= users@.skip(i as int + 1));
        }
        let lu = lowercase(users[i].username.as_str());
        if lu == lname {
            return Some(i);
        }
        i += 1;
    }
    assert(users@.skip(users@.len() as int).len() == 0);
    None
}

/// Resolves every maintainer username to its user id, case-insensitively,
/// or reports the first that does not resolve.
fn resolve_maintainer_ids(users: &Vec<User>, ms: &Vec<crate::user::Short>) -> (r: Option<Vec<i32>>)
    ensures
        match r {
            Some(ids) => {
                &&& maintainers_ok(users@, ms@)
                &&& ids@.len() == ms@.len()
                &&& forall|j: int|
                    0 <= j < ms@.len() ==> #[trigger] ids@[j] == first_lower_match(
                        users@,
                        lower_of(ms@[j].username@),
                    )->Some_0.id
            },
            None => !maintainers_ok(users@, ms@),
        },
{
    let mut ids: Vec<i32> = Vec::new();
    let mut j: usize = 0;
    while j < ms.len()
        invariant
            j <= ms@.len(),
            ids@.len() == j,
            forall|t: int|
                0 <= t < j ==> first_lower_match(
                    users@,
                    lower_of((#[trigger] ms@[t]).username@),
                ) is Some,
            forall|t: int|
                0 <= t < j ==> #[trigger] ids@[t] == first_lower_match(
                    users@,
                    lower_of(ms@[t].username@),
                )->Some_0.id,
        decreases ms@.len() - j,
    {
        match find_user_lower(users, &ms[j].username) {
            Some(i) => {
                ids.push(users[i].id);
            },
            None => {
                return None;
            },
        }
        j += 1;
    }
    Some(ids)
}

/// Whether two maintainer entries fold to the same username.
fn check_dup_maintainers(ms: &Vec<crate::user::Short>) -> (r: bool)
    ensures
        r == has_dup_maintainers(ms@),
{
    let mut i: usize = 0;
    while i < ms.len()
        invariant
            i <= ms@.len(),
            forall|a: int, b: int|
                0 <= a < b < ms@.len() && b < i ==> lower_of((#[trigger] ms@[a]).username@)
                    != lower_of((#[trigger] ms@[b]).username@),
        decreases ms@.len() - i,
    {
        let li = lowercase(ms[i].username.as_str());
        let mut j: usize = 0;
        while j < i
            invariant
                j <= i < ms@.len(),
                li@ == lower_of(ms@[i as int].username@),
                forall|a: int|
                    0 <= a < j ==> lower_of((#[trigger] ms@[a]).username@) != lower_of(
                        ms@[i as int].username@,
                    ),
            decreases i - j,
        {
            let lj = lowercase(ms[j].username.as_str());
            if lj == li {
                return true;
            }
            j += 1;
        }
        i += 1;
    }
    false
}

/// Whether the store has room for everything the candidate will insert.
#[verifier::loop_isolation(false)]
fn check_room(s: &Store, g: &package::Full) -> (r: bool)
    requires
        s.wf(),
    ensures
        r == has_room(*s, *g),
{
    if s.packages.len() >= i32::MAX as usize {
        return false;
    }
    let nv = g.versions.len();
    if nv as u64 > (i32::MAX - s.next_version_id) as u64 {
        return false;
    }
    let mut td: u64 = 0;
    let mut i: usize = 0;
    while i < nv
        invariant
            i <= nv,
            nv == g.versions@.len(),
            td == total_deps(g.versions@.take(i as int)),
            td <= i32::MAX as u64,
        decreases nv - i,
    {
        let dl = g.versions[i].dependencies.len();
        proof {
            lemma_total_deps_take_step(g.versions@, i as int);
        }
        if dl as u64 > i32::MAX as u64 - td {
            proof {
                lemma_total_deps_bounds(g.versions@, i as int + 1);
            }
            return false;
        }
        td = td + dl as u64;
        i += 1;
    }
    proof {
        assert(g.versions@.take(nv as int) =~= g.versions@);
    }
    if td > (i32::MAX - s.next_dependency_id) as u64 {
        return false;
    }
    let mut tc: u64 = 0;
    let mut j: usize = 0;
    while j < nv
        invariant
            j <= nv,
            nv == g.versions@.len(),
            tc == total_contents(g.versions@.take(j as int)),
            tc <= i32::MAX as u64,
        decreases nv - j,
    {
        let cl = g.versions[j].contents.len();
        proof {
            lemma_total_contents_take_step(g.versions@, j as int);
        }
        if cl as u64 > i32::MAX as u64 - tc {
            proof {
                lemma_total_contents_bounds(g.versions@, j as int + 1);
            }
            return false;
        }
        tc = tc + cl as u64;
        j += 1;
    }
    proof {
        assert(g.versions@.take(nv as int) =~= g.versions@);
    }
    if tc > (i32::MAX - s.next_content_id) as u64 {
        return false;
    }
    if s.clock == i64::MAX {
        return false;
    }
    true
}

/// First dependency of the version whose target has the characters of
/// `target`; the caller guarantees one exists.
fn find_dep_target(ds: &Vec<dependency::Full>, target: &String) -> (r: usize)
    requires
        exists|t: int| 0 <= t < ds@.len() && (#[trigger] ds@[t]).package@ == target@,
    ensures
        r < ds@.len(),
        r as int == first_dep_with_target(ds@, target@),
{
    proof {
        assert(ds@.skip(0) =~= ds@);
    }
    let mut i: usize = 0;
    while i < ds.len()
        invariant
            i <= ds@.len(),
            forall|t: int| 0 <= t < i ==> (#[trigger] ds@[t]).package@ != target@,
            first_dep_with_target(ds@, target@) == i + first_dep_with_target(
                ds@.skip(i as int),
                target@,
            ),
        decreases ds@.len() - i,
    {
        proof {
            assert(ds@.skip(i as int).len() > 0);
            assert(ds@.skip(i as int)[0] == ds@[i as int]);
            assert(ds@.skip(i as int).drop_first() =~= ds@.skip(i as int + 1));
        }
        if ds[i].package.eq(target) {
            return i;
        }
        i += 1;
    }
    proof {
        let t = choose|t: int| 0 <= t < ds@.len() && (#[trigger] ds@[t]).package@ == target@;
        assert(false);
    }
    0
}

/// Last changelog entry carrying the language; the caller guarantees one
/// exists.
fn find_last_lang(cs: &Vec<Localized>, lang: crate::types::Language) -> (r: usize)
    requires
        changes_has_lang(cs@, lang),
    ensures
        r < cs@.len(),
        cs@[r as int].language == lang,
        cs@[r as int].text == last_changes_text(cs@, lang),
{
    proof {
        assert(cs@.take(cs@.len() as int) =~= cs@);
    }
    let mut w: usize = cs.len();
    while w > 0
        invariant
            w <= cs@.len(),
            changes_has_lang(cs@, lang),
            last_changes_text(cs@, lang) == last_changes_text(cs@.take(w as int), lang),
            forall|t: int| w <= t < cs@.len() ==> (#[trigger] cs@[t]).language != lang,
        decreases w,
    {
        proof {
            assert(cs@.take(w as int).len() > 0);
            assert(cs@.take(w as int).last() == cs@[w as int - 1]);
            assert(cs@.take(w as int).drop_last() =~= cs@.take(w as int - 1));
        }
        if cs[w - 1].language == lang {
            return w - 1;
        }
        w -= 1;
    }
    proof {
        let t = choose|t: int| 0 <= t < cs@.len() && (#[trigger] cs@[t]).language == lang;
        assert(false);
    }
    0
}

// ----------------------------------------------------------- the coordinator

impl Store {
    /// Publishes a candidate package graph atomically. Validations and
    /// constraint checks run first, in the order the store would hit them;
    /// only a candidate that passes them all changes the store, which then
    /// gains the package with its whole version, dependency, content,
    /// text, description and maintainer graph at once.
    #[verifier::loop_isolation(false)]
    #[verifier::rlimit(100)]
    pub fn publish_package(&mut self, g: package::Full) -> (r: Result<(), DbError>)
        requires
            old(self).wf(),
        ensures
            final(self).wf(),
            r is Ok <==> publish_check(*old(self), g) is None,
            match r {
                Ok(_) => publish_applied(*old(self), *final(self), g),
                Err(e) => *final(self) == *old(self) && publish_check(*old(self), g) == Some(e),
            },
    {
        // 0. the validations, in check order; nothing is written yet
        match crate::assemble::find_package_row(self, &g.name) {
            Some(_) => {
                return Err(DbError::Conflict);
            },
            None => {},
        }
        if check_dup_versions(&g.versions) {
            return Err(DbError::StoreError);
        }
        if !check_texts(&g.versions) {
            return Err(DbError::ValidationFailure);
        }
        if check_dup_readme_langs(&g.versions) {
            return Err(DbError::StoreError);
        }
        if check_dup_langs(&g.description) {
            return Err(DbError::StoreError);
        }
        let maintainer_ids = match resolve_maintainer_ids(&self.users, &g.maintainers) {
            Some(ids) => ids,
            None => {
                return Err(DbError::ValidationFailure);
            },
        };
        if check_dup_maintainers(&g.maintainers) {
            return Err(DbError::StoreError);
        }
        if !check_room(self, &g) {
            return Err(DbError::StoreError);
        }
        proof {
            assert(publish_check(*old(self), g) is None);
        }

        let now = self.clock;
        let vid0 = self.next_version_id;
        let did0 = self.next_dependency_id;
        let cid0 = self.next_content_id;
        let nv = g.versions.len();

        // 1. the version rows, ids in batch order
        let mut vrows: Vec<Version> = Vec::new();
        let mut i: usize = 0;
        while i < nv
            invariant
                i <= nv,
                vrows@ == version_rows_upto(g, vid0 as int, now, i as int),
            decreases nv - i,
        {
            vrows.push(
                Version {
                    id: vid0 + i as i32,
                    package: g.name.clone(),
                    version: g.versions[i].version.clone(),
                    created: now,
                },
            );
            proof {
                assert(vrows@ =~= version_rows_upto(g, vid0 as int, now, i as int + 1));
            }
            i += 1;
        }

        // 2. the dependency rows, ids flattened across versions
        let mut drows: Vec<Dependency> = Vec::new();
        let mut did: i32 = did0;
        let mut i2: usize = 0;
        while i2 < nv
            invariant
                i2 <= nv,
                drows@ == dep_rows_upto(g, vid0 as int, did0 as int, i2 as int),
                did as int == did0 + total_deps(g.versions@.take(i2 as int)),
            decreases nv - i2,
        {
            let v = &g.versions[i2];
            let vid: i32 = vid0 + i2 as i32;
            let ghost base = did as int;
            let mut j: usize = 0;
            while j < v.dependencies.len()
                invariant
                    j <= v.dependencies@.len(),
                    i2 < nv,
                    v == g.versions@[i2 as int],
                    vid as int == vid0 + i2 as int,
                    base == did0 + total_deps(g.versions@.take(i2 as int)),
                    did as int == base + j,
                    drows@ == dep_rows_upto(g, vid0 as int, did0 as int, i2 as int)
                        + dep_rows_ver_upto(*v, g.name, vid0 as int + i2 as int, base, j as int),
                decreases v.dependencies@.len() - j,
            {
                proof {
                    lemma_total_deps_take_step(g.versions@, i2 as int);
                    lemma_total_deps_bounds(g.versions@, i2 as int + 1);
                }
                let d = &v.dependencies[j];
                drows.push(
                    Dependency {
                        id: did,
                        package: g.name.clone(),
                        version: vid,
                        target: d.package.clone(),
                        spec_str: d.spec_str.clone(),
                        dep_type: d.dep_type,
                    },
                );
                proof {
                    assert(drows@ =~= dep_rows_upto(g, vid0 as int, did0 as int, i2 as int)
                        + dep_rows_ver_upto(
                        *v,
                        g.name,
                        vid0 as int + i2 as int,
                        base,
                        j as int + 1,
                    ));
                }
                did = did + 1;
                j += 1;
            }
            proof {
                lemma_total_deps_take_step(g.versions@, i2 as int);
                assert(dep_rows_ver_upto(
                    *v,
                    g.name,
                    vid0 as int + i2 as int,
                    base,
                    v.dependencies@.len() as int,
                ) == dep_rows_for_version(*v, g.name, vid0 as int + i2 as int, base));
                assert(drows@ == dep_rows_upto(g, vid0 as int, did0 as int, i2 as int + 1));
            }
            i2 += 1;
        }
        proof {
            assert(g.versions@.take(nv as int) =~= g.versions@);
        }

        // 3. the dependency-description rows, owners resolved through the
        //    (version id, target) mapping captured in step 2
        let mut ddrows: Vec<DependencyDescription> = Vec::new();
        let mut base2: i32 = did0;
        let mut i3: usize = 0;
        while i3 < nv
            invariant
                i3 <= nv,
                ddrows@ == depdesc_rows_upto(g, did0 as int, i3 as int),
                base2 as int == did0 + total_deps(g.versions@.take(i3 as int)),
            decreases nv - i3,
        {
            proof {
                lemma_total_deps_take_step(g.versions@, i3 as int);
                lemma_total_deps_bounds(g.versions@, i3 as int + 1);
            }
            let v = &g.versions[i3];
            let mut j: usize = 0;
            while j < v.dependencies.len()
                invariant
                    j <= v.dependencies@.len(),
                    i3 < nv,
                    v == g.versions@[i3 as int],
                    base2 as int == did0 + total_deps(g.versions@.take(i3 as int)),
                    ddrows@ == depdesc_rows_upto(g, did0 as int, i3 as int)
                        + depdesc_rows_ver_upto(*v, base2 as int, j as int),
                decreases v.dependencies@.len() - j,
            {
                let d = &v.dependencies[j];
                let ghost resolved = base2 as int + first_dep_with_target(
                    v.dependencies@,
                    v.dependencies@[j as int].package@,
                );
                match d.dep_type {
                    crate::types::DependencyType::Optional => {
                        match &d.description {
                            Some(list) => {
                                proof {
                                    assert(v.dependencies@[j as int].package@ == d.package@);
                                    lemma_first_dep_le(v.dependencies@, d.package@, j as int);
                                    lemma_total_deps_take_step(g.versions@, i3 as int);
                                    lemma_total_deps_bounds(g.versions@, i3 as int);
                                    lemma_total_deps_bounds(g.versions@, i3 as int + 1);
                                    assert(base2 as int + v.dependencies@.len() <= i32::MAX);
                                }
                                let jp = find_dep_target(&v.dependencies, &d.package);
                                let owner: i32 = base2 + jp as i32;
                                assert(owner as int == resolved);
                                let mut t: usize = 0;
                                while t < list.len()
                                    invariant
                                        t <= list@.len(),
                                        i3 < nv,
                                        j < v.dependencies@.len(),
                                        v == g.versions@[i3 as int],
                                        d == v.dependencies@[j as int],
                                        d.description == Some(*list),
                                        d.dep_type is Optional,
                                        owner as int == resolved,
                                        base2 as int == did0 + total_deps(
                                            g.versions@.take(i3 as int),
                                        ),
                                        ddrows@ == depdesc_rows_upto(g, did0 as int, i3 as int)
                                            + depdesc_rows_ver_upto(*v, base2 as int, j as int)
                                            + depdesc_rows_for_dep_upto(*d, resolved, t as int),
                                    decreases list@.len() - t,
                                {
                                    ddrows.push(
                                        DependencyDescription {
                                            dependency: owner,
                                            language: list[t].language,
                                            description: list[t].text.clone(),
                                        },
                                    );
                                    proof {
                                        assert(ddrows@ =~= depdesc_rows_upto(
                                            g,
                                            did0 as int,
                                            i3 as int,
                                        ) + depdesc_rows_ver_upto(*v, base2 as int, j as int)
                                            + depdesc_rows_for_dep_upto(
                                            *d,
                                            resolved,
                                            t as int + 1,
                                        ));
                                    }
                                    t += 1;
                                }
                                proof {
                                    assert(depdesc_rows_for_dep_upto(
                                        *d,
                                        resolved,
                                        list@.len() as int,
                                    ) == depdesc_rows_for_dep(*d, resolved));
                                }
                            },
                            None => {
                                proof {
                                    assert(depdesc_rows_for_dep(*d, resolved)
                                        == Seq::<DependencyDescription>::empty());
                                }
                            },
                        }
                    },
                    _ => {
                        proof {
                            assert(depdesc_rows_for_dep(*d, resolved)
                                == Seq::<DependencyDescription>::empty());
                        }
                    },
                }
                proof {
                    assert(ddrows@ =~= depdesc_rows_upto(g, did0 as int, i3 as int)
                        + depdesc_rows_ver_upto(*v, base2 as int, j as int + 1));
                }
                j += 1;
            }
            proof {
                assert(ddrows@ == depdesc_rows_upto(g, did0 as int, i3 as int + 1));
                lemma_total_deps_take_step(g.versions@, i3 as int);
                lemma_total_deps_bounds(g.versions@, i3 as int);
                lemma_total_deps_bounds(g.versions@, i3 as int + 1);
                assert(v.dependencies@.len() <= i32::MAX);
                assert(base2 as int + v.dependencies@.len() <= i32::MAX);
            }
            base2 = base2 + v.dependencies.len() as i32;
            i3 += 1;
        }

        // 4. the content rows
        let mut crows: Vec<ContentNode> = Vec::new();
        let mut cid: i32 = cid0;
        let mut i4: usize = 0;
        while i4 < nv
            invariant
                i4 <= nv,
                crows@ == content_rows_upto(g, vid0 as int, cid0 as int, i4 as int),
                cid as int == cid0 + total_contents(g.versions@.take(i4 as int)),
            decreases nv - i4,
        {
            let v = &g.versions[i4];
            let vid: i32 = vid0 + i4 as i32;
            let ghost cbase = cid as int;
            let mut t: usize = 0;
            while t < v.contents.len()
                invariant
                    t <= v.contents@.len(),
                    i4 < nv,
                    v == g.versions@[i4 as int],
                    vid as int == vid0 + i4 as int,
                    cbase == cid0 + total_contents(g.versions@.take(i4 as int)),
                    cid as int == cbase + t,
                    crows@ == content_rows_upto(g, vid0 as int, cid0 as int, i4 as int)
                        + content_rows_ver_upto(*v, vid0 as int + i4 as int, cbase, t as int),
                decreases v.contents@.len() - t,
            {
                proof {
                    lemma_total_contents_take_step(g.versions@, i4 as int);
                    lemma_total_contents_bounds(g.versions@, i4 as int + 1);
                }
                crows.push(
                    ContentNode {
                        id: cid,
                        version: vid,
                        path: v.contents[t].path.clone(),
                        node_type: v.contents[t].node_type,
                    },
                );
                proof {
                    assert(crows@ =~= content_rows_upto(g, vid0 as int, cid0 as int, i4 as int)
                        + content_rows_ver_upto(
                        *v,
                        vid0 as int + i4 as int,
                        cbase,
                        t as int + 1,
                    ));
                }
                cid = cid + 1;
                t += 1;
            }
            proof {
                lemma_total_contents_take_step(g.versions@, i4 as int);
                assert(crows@ == content_rows_upto(g, vid0 as int, cid0 as int, i4 as int + 1));
            }
            i4 += 1;
        }

        // 5. the version-text rows: one per readme entry, paired with the
        //    changelog entry sharing its language
        let mut trows: Vec<VersionText> = Vec::new();
        let mut i5: usize = 0;
        while i5 < nv
            invariant
                i5 <= nv,
                trows@ == text_rows_upto(g, vid0 as int, i5 as int),
            decreases nv - i5,
        {
            let v = &g.versions[i5];
            let vid: i32 = vid0 + i5 as i32;
            let mut j: usize = 0;
            while j < v.readme.len()
                invariant
                    j <= v.readme@.len(),
                    i5 < nv,
                    v == g.versions@[i5 as int],
                    vid as int == vid0 as int + i5 as int,
                    trows@ == text_rows_upto(g, vid0 as int, i5 as int) + text_rows_ver_upto(
                        *v,
                        vid0 as int + i5 as int,
                        j as int,
                    ),
                decreases v.readme@.len() - j,
            {
                proof {
                    assert(version_texts_ok(g.versions@[i5 as int]));
                    assert(changes_has_lang(v.changes@, v.readme@[j as int].language));
                }
                let w = find_last_lang(&v.changes, v.readme[j].language);
                trows.push(
                    VersionText {
                        version: vid,
                        language: v.readme[j].language,
                        changes: v.changes[w].text.clone(),
                        readme: v.readme[j].text.clone(),
                    },
                );
                proof {
                    assert(trows@ =~= text_rows_upto(g, vid0 as int, i5 as int)
                        + text_rows_ver_upto(*v, vid0 as int + i5 as int, j as int + 1));
                }
                j += 1;
            }
            proof {
                assert(trows@ == text_rows_upto(g, vid0 as int, i5 as int + 1));
            }
            i5 += 1;
        }

        // 6. the package-description rows
        let mut descrows: Vec<Description> = Vec::new();
        let mut k: usize = 0;
        while k < g.description.len()
            invariant
                k <= g.description@.len(),
                descrows@ == g.description@.take(k as int).map_values(
                    |d: Localized| Description {
                        package: g.name,
                        language: d.language,
                        description: d.text,
                    },
                ),
            decreases g.description@.len() - k,
        {
            descrows.push(
                Description {
                    package: g.name.clone(),
                    language: g.description[k].language,
                    description: g.description[k].text.clone(),
                },
            );
            proof {
                assert(descrows@ =~= g.description@.take(k as int + 1).map_values(
                    |d: Localized| Description {
                        package: g.name,
                        language: d.language,
                        description: d.text,
                    },
                ));
            }
            k += 1;
        }
        proof {
            assert(g.description@.take(g.description@.len() as int) =~= g.description@);
        }

        // 7. the maintainer rows, from the step-0 resolution
        let mut mrows: Vec<Maintainer> = Vec::new();
        let mut m: usize = 0;
        while m < maintainer_ids.len()
            invariant
                m <= maintainer_ids@.len(),
                maintainer_ids@.len() == g.maintainers@.len(),
                mrows@.len() == m,
                forall|t: int|
                    0 <= t < m ==> #[trigger] mrows@[t] == (Maintainer {
                        user: maintainer_ids@[t],
                        package: g.name,
                    }),
            decreases maintainer_ids@.len() - m,
        {
            mrows.push(Maintainer { user: maintainer_ids[m], package: g.name.clone() });
            m += 1;
        }
        proof {
            assert(mrows@ =~= new_maintainer_rows(self.users@, g));
        }

        // 8. commit: every table gains its rows, the counters advance, the
        //    clock ticks
        let prow = Package {
            name: g.name.clone(),
            website: g.website.clone(),
            license: g.license.clone(),
            authors: g.authors.clone(),
            downloads: 0,
            created: now,
            updated: now,
        };
        proof {
            assert(prow.authors@ =~= g.authors@);
            assert(pushed_package_ok(prow, g, now));
        }
        self.packages.push(prow);
        let mut vrows = vrows;
        self.versions.append(&mut vrows);
        let mut drows = drows;
        self.dependencies.append(&mut drows);
        let mut ddrows = ddrows;
        self.dependency_descriptions.append(&mut ddrows);
        let mut crows = crows;
        self.contents.append(&mut crows);
        let mut trows = trows;
        self.version_texts.append(&mut trows);
        let mut descrows = descrows;
        self.descriptions.append(&mut descrows);
        let mut mrows = mrows;
        self.maintainers.append(&mut mrows);
        self.next_version_id = vid0 + nv as i32;
        self.next_dependency_id = did;
        self.next_content_id = cid;
        self.clock = now + 1;

        proof {
            let s0 = *old(self);
            let s1 = *self;
            assert(s1.packages@.take(s0.packages@.len() as int) =~= s0.packages@);
            assert(publish_applied(s0, s1, g));

            // well-formedness of the new state
            lemma_find_package_none(s0.packages@, g.name@);
            lemma_dep_rows_flat(g, vid0 as int, did0 as int, nv as int);
            lemma_content_rows_flat(g, vid0 as int, cid0 as int, nv as int);
            lemma_text_rows_flat(g, vid0 as int, nv as int);
            lemma_depdesc_rows_range(g, did0 as int, nv as int);
            let oldn = s0.packages@.len() as int;
            assert(crate::store::package_names(s1.packages@) =~= crate::store::package_names(
                s0.packages@,
            ).push(g.name@));
            assert forall|a: int, b: int|
                0 <= a < b < s1.packages@.len() implies crate::store::package_names(
                s1.packages@,
            )[a] != crate::store::package_names(s1.packages@)[b] by {
                if b < oldn {
                } else {
                    assert(s1.packages@[a].name@ != g.name@);
                }
            }
            let newvs = new_version_rows(g, vid0 as int, s0.clock);
            assert(newvs.len() == nv);
            assert forall|t: int| 0 <= t < nv implies {
                &&& (#[trigger] newvs[t]).id == vid0 + t
                &&& newvs[t].package@ == g.name@
                &&& newvs[t].version@ == g.versions@[t].version@
            } by {}
            assert(crate::store::package_names(s1.packages@).contains(g.name@)) by {
                assert(crate::store::package_names(s1.packages@)[oldn] == g.name@);
            }
            assert forall|t: int|
                0 <= t < s1.versions@.len() implies crate::store::package_names(
                s1.packages@,
            ).contains((#[trigger] s1.versions@[t]).package@) by {
                if t < s0.versions@.len() {
                    assert(s1.versions@[t] == s0.versions@[t]);
                    let w = choose|w: int|
                        0 <= w < crate::store::package_names(s0.packages@).len()
                            && crate::store::package_names(s0.packages@)[w] == s0.versions@[t].package@;
                    assert(crate::store::package_names(s1.packages@)[w]
                        == s0.versions@[t].package@);
                } else {
                    assert(s1.versions@[t] == newvs[t - s0.versions@.len()]);
                }
            }
            assert forall|a: int, b: int|
                0 <= a < b < s1.versions@.len() implies !((#[trigger] s1.versions@[a]).package@
                == (#[trigger] s1.versions@[b]).package@ && s1.versions@[a].version@
                == s1.versions@[b].version@) by {
                let n0 = s0.versions@.len();
                if b < n0 {
                } else if a < n0 {
                    assert(s1.versions@[a] == s0.versions@[a]);
                    assert(s1.versions@[b] == newvs[b - n0]);
                    assert(crate::store::package_names(s0.packages@).contains(
                        s0.versions@[a].package@,
                    ));
                    let w = choose|w: int|
                        0 <= w < crate::store::package_names(s0.packages@).len()
                            && crate::store::package_names(s0.packages@)[w] == s0.versions@[a].package@;
                    assert(s0.packages@[w].name@ != g.name@);
                } else {
                    assert(s1.versions@[a] == newvs[a - n0]);
                    assert(s1.versions@[b] == newvs[b - n0]);
                }
            }
            assert(s1.wf());
        }
        Ok(())
    }
}

} // verus!
