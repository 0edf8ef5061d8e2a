//! The hierarchy assembler: one nested domain object per package, composed
//! from the flat batched row sets by repeated grouping and positional
//! zipping.

use vstd::prelude::*;

use crate::dependency;
use crate::domain;
use crate::domain::{ContentNodeModel, Localized, LocalizedModel};
use crate::error::DbError;
use crate::group::{
    distinct_keys, group_by_id, group_by_name, lemma_select_elements, lemma_select_parallel,
    lemma_select_zip_first, select_by_key,
};
use crate::package;
use crate::queries::{
    collect_content_versions, collect_dep_ids, collect_dep_versions, collect_depdesc_deps,
    collect_description_packages, collect_maintainer_packages, collect_text_versions,
    collect_version_ids, collect_version_packages, count_likes, contents_of, depdescs_of,
    deps_of, descriptions_named, fetch_contents_in, fetch_depdescs_in, fetch_deps_in,
    fetch_descriptions_in, fetch_descriptions_named, fetch_maintainer_names,
    fetch_maintainers_in, fetch_texts_in, fetch_versions_in, fetch_versions_named,
    first_user_by_id, grouped_likes, like_count, maintainer_names_of, maintainers_in,
    maintainers_named, resolve_usernames, texts_of, versions_named,
};
use crate::rows;
use crate::seqs::{lemma_filter_distinct_by, lemma_filter_filter};
use crate::store::Store;
use crate::strutil::name_views;
use crate::types::DependencyType;
use crate::user;
use crate::version;

verus! {

// ------------------------------------------------ the assembled spec models

/// The localized texts of a package-description row set.
pub open spec fn description_models(ds: Seq<rows::Description>) -> Seq<LocalizedModel> {
    ds.map_values(
        |d: rows::Description| LocalizedModel { language: d.language, text: d.description@ },
    )
}

/// The localized texts of a dependency-description row set.
pub open spec fn depdesc_models(dds: Seq<rows::DependencyDescription>) -> Seq<LocalizedModel> {
    dds.map_values(
        |d: rows::DependencyDescription| LocalizedModel {
            language: d.language,
            text: d.description@,
        },
    )
}

/// The changelog halves of a version-text row set, language tags kept.
pub open spec fn changes_models(ts: Seq<rows::VersionText>) -> Seq<LocalizedModel> {
    ts.map_values(|t: rows::VersionText| LocalizedModel { language: t.language, text: t.changes@ })
}

/// The readme halves of a version-text row set, language tags kept.
pub open spec fn readme_models(ts: Seq<rows::VersionText>) -> Seq<LocalizedModel> {
    ts.map_values(|t: rows::VersionText| LocalizedModel { language: t.language, text: t.readme@ })
}

/// The file-tree entries of a content row set.
pub open spec fn content_models(cs: Seq<rows::ContentNode>) -> Seq<ContentNodeModel> {
    cs.map_values(|c: rows::ContentNode| ContentNodeModel { node_type: c.node_type, path: c.path@ })
}

/// A dependency assembled from its row and its grouped description rows.
/// Only an optional dependency carries descriptions; for the other kinds
/// the collection is absent, whatever rows exist.
pub open spec fn dep_pair_model(p: (rows::Dependency, Vec<rows::DependencyDescription>))
    -> dependency::FullModel {
    dependency::FullModel {
        package: p.0.target@,
        spec_str: p.0.spec_str@,
        dep_type: p.0.dep_type,
        description: if p.0.dep_type is Optional {
            Some(depdesc_models(p.1@))
        } else {
            None
        },
    }
}

/// A dependency assembled against the whole store.
pub open spec fn dep_full_model(s: Store, d: rows::Dependency) -> dependency::FullModel {
    dependency::FullModel {
        package: d.target@,
        spec_str: d.spec_str@,
        dep_type: d.dep_type,
        description: if d.dep_type is Optional {
            Some(depdesc_models(depdescs_of(s.dependency_descriptions@, d.id)))
        } else {
            None
        },
    }
}

/// A version assembled against the whole store.
pub open spec fn version_full_model(s: Store, v: rows::Version) -> version::FullModel {
    version::FullModel {
        version: v.version@,
        changes: changes_models(texts_of(s.version_texts@, v.id)),
        readme: readme_models(texts_of(s.version_texts@, v.id)),
        url: Seq::empty(),
        dependencies: deps_of(s.dependencies@, v.id).map_values(
            |d: rows::Dependency| dep_full_model(s, d),
        ),
        contents: content_models(contents_of(s.contents@, v.id)),
        created: v.created,
    }
}

/// A package assembled in full against the whole store.
pub open spec fn package_full_model(s: Store, p: rows::Package) -> package::FullModel {
    package::FullModel {
        name: p.name@,
        description: description_models(descriptions_named(s.descriptions@, p.name@)),
        website: p.website@,
        license: p.license@,
        authors: p.authors.deep_view(),
        maintainers: maintainer_names_of(s.users@, s.maintainers@, p.name@).map_values(
            |n: Seq<char>| user::ShortModel { username: n },
        ),
        versions: versions_named(s.versions@, p.name@).map_values(
            |v: rows::Version| version_full_model(s, v),
        ),
        downloads: p.downloads,
        likes: like_count(s.likes@, p.name@) as i32,
        created: p.created,
        updated: p.updated,
    }
}

/// The first package carrying the name, in table order.
pub open spec fn find_package(ps: Seq<rows::Package>, name: Seq<char>) -> Option<rows::Package>
    decreases ps.len(),
{
    if ps.len() == 0 {
        None
    } else if ps[0].name@ == name {
        Some(ps[0])
    } else {
        find_package(ps.drop_first(), name)
    }
}

// --------------------------------------- selections as grouping-engine picks

proof fn lemma_select_depdescs(dds: Seq<rows::DependencyDescription>, keys: Seq<i32>, did: i32)
    requires
        keys.len() == dds.len(),
        forall|i: int| 0 <= i < dds.len() ==> keys[i] == (#[trigger] dds[i]).dependency,
    ensures
        select_by_key(dds, keys, did) == depdescs_of(dds, did),
    decreases dds.len(),
{
    reveal(Seq::filter);
    if dds.len() > 0 {
        lemma_select_depdescs(dds.drop_last(), keys.drop_last(), did);
    }
}

proof fn lemma_select_deps(ds: Seq<rows::Dependency>, keys: Seq<i32>, vid: i32)
    requires
        keys.len() == ds.len(),
        forall|i: int| 0 <= i < ds.len() ==> keys[i] == (#[trigger] ds[i]).version,
    ensures
        select_by_key(ds, keys, vid) == deps_of(ds, vid),
    decreases ds.len(),
{
    reveal(Seq::filter);
    if ds.len() > 0 {
        lemma_select_deps(ds.drop_last(), keys.drop_last(), vid);
    }
}

proof fn lemma_select_contents(cs: Seq<rows::ContentNode>, keys: Seq<i32>, vid: i32)
    requires
        keys.len() == cs.len(),
        forall|i: int| 0 <= i < cs.len() ==> keys[i] == (#[trigger] cs[i]).version,
    ensures
        select_by_key(cs, keys, vid) == contents_of(cs, vid),
    decreases cs.len(),
{
    reveal(Seq::filter);
    if cs.len() > 0 {
        lemma_select_contents(cs.drop_last(), keys.drop_last(), vid);
    }
}

proof fn lemma_select_texts(ts: Seq<rows::VersionText>, keys: Seq<i32>, vid: i32)
    requires
        keys.len() == ts.len(),
        forall|i: int| 0 <= i < ts.len() ==> keys[i] == (#[trigger] ts[i]).version,
    ensures
        select_by_key(ts, keys, vid) == texts_of(ts, vid),
    decreases ts.len(),
{
    reveal(Seq::filter);
    if ts.len() > 0 {
        lemma_select_texts(ts.drop_last(), keys.drop_last(), vid);
    }
}

// ------------------------------------------------------------- exec helpers

/// First position of the named package.
pub fn find_package_row(s: &Store, name: &String) -> (r: Option<usize>)
    ensures
        match r {
            Some(i) => i < s.packages@.len() && s.packages@[i as int].name@ == name@
                && find_package(s.packages@, name@) == Some(s.packages@[i as int]),
            None => find_package(s.packages@, name@) is None,
        },
{
    proof {
        assert(s.packages@.skip(0) =~= s.packages@);
    }
    let mut i: usize = 0;
    while i < s.packages.len()
        invariant
            i <= s.packages@.len(),
            find_package(s.packages@, name@) == find_package(s.packages@.skip(i as int), name@),
        decreases s.packages@.len() - i,
    {
        proof {
            assert(s.packages@.skip(i as int).len() > 0);
            assert(s.packages@.skip(i as int)[0] == s.packages@[i as int]);
            assert(s.packages@.skip(i as int).drop_first() =~= s.packages@.skip(i as int + 1));
        }
        if s.packages[i].name.eq(name) {
            return Some(i);
        }
        i += 1;
    }
    assert(s.packages@.skip(s.packages@.len() as int).len() == 0);
    None
}

/// Turns package-description rows into localized texts, order kept.
fn build_descriptions(ds: &Vec<rows::Description>) -> (r: Vec<Localized>)
    ensures
        r.deep_view() == description_models(ds@),
{
    let mut r: Vec<Localized> = Vec::new();
    let mut i: usize = 0;
    while i < ds.len()
        invariant
            i <= ds@.len(),
            r@.len() == i,
            r.deep_view() == description_models(ds@.take(i as int)),
        decreases ds@.len() - i,
    {
        let ghost prev = r.deep_view();
        let ghost m = LocalizedModel { language: ds@[i as int].language, text: ds@[i as int].description@ };
        r.push(Localized { language: ds[i].language, text: ds[i].description.clone() });
        proof {
            assert(r.deep_view() =~= prev.push(m));
            assert(description_models(ds@.take(i as int + 1)) =~= description_models(
                ds@.take(i as int),
            ).push(m));
        }
        i += 1;
    }
    proof {
        assert(ds@.take(ds@.len() as int) =~= ds@);
    }
    r
}

/// Turns dependency-description rows into localized texts, order kept.
fn build_depdesc_texts(dds: &Vec<rows::DependencyDescription>) -> (r: Vec<Localized>)
    ensures
        r.deep_view() == depdesc_models(dds@),
{
    let mut r: Vec<Localized> = Vec::new();
    let mut i: usize = 0;
    while i < dds.len()
        invariant
            i <= dds@.len(),
            r@.len() == i,
            r.deep_view() == depdesc_models(dds@.take(i as int)),
        decreases dds@.len() - i,
    {
        let ghost prev = r.deep_view();
        let ghost m = LocalizedModel { language: dds@[i as int].language, text: dds@[i as int].description@ };
        r.push(Localized { language: dds[i].language, text: dds[i].description.clone() });
        proof {
            assert(r.deep_view() =~= prev.push(m));
            assert(depdesc_models(dds@.take(i as int + 1)) =~= depdesc_models(
                dds@.take(i as int),
            ).push(m));
        }
        i += 1;
    }
    proof {
        assert(dds@.take(dds@.len() as int) =~= dds@);
    }
    r
}

/// Splits version texts into their changelog and readme halves, both
/// sharing the row's language tag and order.
fn split_texts(ts: &Vec<rows::VersionText>) -> (r: (Vec<Localized>, Vec<Localized>))
    ensures
        r.0.deep_view() == changes_models(ts@),
        r.1.deep_view() == readme_models(ts@),
{
    let mut chg: Vec<Localized> = Vec::new();
    let mut rdm: Vec<Localized> = Vec::new();
    let mut i: usize = 0;
    while i < ts.len()
        invariant
            i <= ts@.len(),
            chg@.len() == i,
            rdm@.len() == i,
            chg.deep_view() == changes_models(ts@.take(i as int)),
            rdm.deep_view() == readme_models(ts@.take(i as int)),
        decreases ts@.len() - i,
    {
        let ghost prev_c = chg.deep_view();
        let ghost prev_r = rdm.deep_view();
        let ghost mc = LocalizedModel { language: ts@[i as int].language, text: ts@[i as int].changes@ };
        let ghost mr = LocalizedModel { language: ts@[i as int].language, text: ts@[i as int].readme@ };
        chg.push(Localized { language: ts[i].language, text: ts[i].changes.clone() });
        rdm.push(Localized { language: ts[i].language, text: ts[i].readme.clone() });
        proof {
            assert(chg.deep_view() =~= prev_c.push(mc));
            assert(rdm.deep_view() =~= prev_r.push(mr));
            assert(changes_models(ts@.take(i as int + 1)) =~= changes_models(
                ts@.take(i as int),
            ).push(mc));
            assert(readme_models(ts@.take(i as int + 1)) =~= readme_models(
                ts@.take(i as int),
            ).push(mr));
        }
        i += 1;
    }
    proof {
        assert(ts@.take(ts@.len() as int) =~= ts@);
    }
    (chg, rdm)
}

/// Turns content rows into file-tree entries, order kept.
fn build_contents(cs: &Vec<rows::ContentNode>) -> (r: Vec<domain::ContentNode>)
    ensures
        r.deep_view() == content_models(cs@),
{
    let mut r: Vec<domain::ContentNode> = Vec::new();
    let mut i: usize = 0;
    while i < cs.len()
        invariant
            i <= cs@.len(),
            r@.len() == i,
            r.deep_view() == content_models(cs@.take(i as int)),
        decreases cs@.len() - i,
    {
        let ghost prev = r.deep_view();
        let ghost m = ContentNodeModel { node_type: cs@[i as int].node_type, path: cs@[i as int].path@ };
        r.push(domain::ContentNode { node_type: cs[i].node_type, path: cs[i].path.clone() });
        proof {
            assert(r.deep_view() =~= prev.push(m));
            assert(content_models(cs@.take(i as int + 1)) =~= content_models(
                cs@.take(i as int),
            ).push(m));
        }
        i += 1;
    }
    proof {
        assert(cs@.take(cs@.len() as int) =~= cs@);
    }
    r
}

/// Wraps usernames as short user references, order kept.
fn build_user_shorts(names: &Vec<String>) -> (r: Vec<user::Short>)
    ensures
        r.deep_view() == names@.map_values(|n: String| user::ShortModel { username: n@ }),
{
    let mut r: Vec<user::Short> = Vec::new();
    let mut i: usize = 0;
    while i < names.len()
        invariant
            i <= names@.len(),
            r@.len() == i,
            r.deep_view() == names@.take(i as int).map_values(
                |n: String| user::ShortModel { username: n@ },
            ),
        decreases names@.len() - i,
    {
        let ghost prev = r.deep_view();
        let ghost m = user::ShortModel { username: names@[i as int]@ };
        r.push(user::Short { username: names[i].clone() });
        proof {
            assert(r.deep_view() =~= prev.push(m));
            assert(names@.take(i as int + 1).map_values(
                |n: String| user::ShortModel { username: n@ },
            ) =~= names@.take(i as int).map_values(
                |n: String| user::ShortModel { username: n@ },
            ).push(m));
        }
        i += 1;
    }
    proof {
        assert(names@.take(names@.len() as int) =~= names@);
    }
    r
}

/// Zips each dependency with its grouped description rows, by position.
fn zip_dep_groups(
    deps: Vec<rows::Dependency>,
    groups: Vec<Vec<rows::DependencyDescription>>,
) -> (r: Vec<(rows::Dependency, Vec<rows::DependencyDescription>)>)
    requires
        deps@.len() == groups@.len(),
    ensures
        r@.len() == deps@.len(),
        forall|i: int|
            0 <= i < deps@.len() ==> #[trigger] r@[i] == (deps@[i], groups@[i]),
{
    let ghost ds = deps@;
    let ghost gs = groups@;
    let mut r: Vec<(rows::Dependency, Vec<rows::DependencyDescription>)> = Vec::new();
    let mut deps = deps;
    let mut groups = groups;
    while deps.len() > 0
        invariant
            r@.len() <= ds.len(),
            ds.len() == gs.len(),
            deps@ == ds.skip(r@.len() as int),
            groups@ == gs.skip(r@.len() as int),
            forall|t: int| 0 <= t < r@.len() ==> #[trigger] r@[t] == (ds[t], gs[t]),
        decreases deps@.len(),
    {
        let ghost i = r@.len() as int;
        let d = deps.remove(0);
        let g = groups.remove(0);
        proof {
            assert(d == ds[i]);
            assert(g == gs[i]);
            assert(deps@ =~= ds.skip(i + 1));
            assert(groups@ =~= gs.skip(i + 1));
        }
        r.push((d, g));
    }
    r
}

/// Assembles full dependencies from (row, grouped descriptions) pairs.
fn build_dep_fulls(pairs: &Vec<(rows::Dependency, Vec<rows::DependencyDescription>)>) -> (r: Vec<
    dependency::Full,
>)
    ensures
        r.deep_view() == pairs@.map_values(
            |p: (rows::Dependency, Vec<rows::DependencyDescription>)| dep_pair_model(p),
        ),
{
    let mut r: Vec<dependency::Full> = Vec::new();
    let mut i: usize = 0;
    while i < pairs.len()
        invariant
            i <= pairs@.len(),
            r@.len() == i,
            r.deep_view() == pairs@.take(i as int).map_values(
                |p: (rows::Dependency, Vec<rows::DependencyDescription>)| dep_pair_model(p),
            ),
        decreases pairs@.len() - i,
    {
        let p = &pairs[i];
        let desc: Option<Vec<Localized>> = match p.0.dep_type {
            DependencyType::Optional => Some(build_depdesc_texts(&p.1)),
            _ => None,
        };
        let ghost prev = r.deep_view();
        let ghost m = dep_pair_model(pairs@[i as int]);
        r.push(
            dependency::Full {
                package: p.0.target.clone(),
                spec_str: p.0.spec_str.clone(),
                dep_type: p.0.dep_type,
                description: desc,
            },
        );
        proof {
            assert(r@[i as int].deep_view() =~~= m);
            assert(r.deep_view() =~= prev.push(m));
            assert(pairs@.take(i as int + 1).map_values(
                |p: (rows::Dependency, Vec<rows::DependencyDescription>)| dep_pair_model(p),
            ) =~= pairs@.take(i as int).map_values(
                |p: (rows::Dependency, Vec<rows::DependencyDescription>)| dep_pair_model(p),
            ).push(m));
        }
        i += 1;
    }
    proof {
        assert(pairs@.take(pairs@.len() as int) =~= pairs@);
    }
    r
}

// ---------------------------------------------------- short-form spec models

/// A dependency reduced to target and version spec.
pub open spec fn dep_short_model(d: rows::Dependency) -> dependency::ShortModel {
    dependency::ShortModel { package: d.target@, spec_str: d.spec_str@ }
}

/// A version in short form, from its row and its grouped dependency rows.
pub open spec fn version_pair_short_model(p: (rows::Version, Vec<rows::Dependency>))
    -> version::ShortModel {
    version::ShortModel {
        version: p.0.version@,
        url: Seq::empty(),
        dependencies: p.1@.map_values(|d: rows::Dependency| dep_short_model(d)),
    }
}

/// A version in short form against the whole store.
pub open spec fn version_short_model(s: Store, v: rows::Version) -> version::ShortModel {
    version::ShortModel {
        version: v.version@,
        url: Seq::empty(),
        dependencies: deps_of(s.dependencies@, v.id).map_values(
            |d: rows::Dependency| dep_short_model(d),
        ),
    }
}

/// The username a maintainer link resolves to.
pub open spec fn resolved_username(users: Seq<rows::User>, m: rows::Maintainer) -> Seq<char> {
    first_user_by_id(users, m.user)->Some_0.username@
}

/// A package in short form against the whole store. Maintainers follow the
/// maintainer table's order here, resolved through the user table.
pub open spec fn package_short_model(s: Store, p: rows::Package) -> package::ShortModel {
    package::ShortModel {
        name: p.name@,
        description: description_models(descriptions_named(s.descriptions@, p.name@)),
        maintainers: maintainers_named(s.maintainers@, p.name@).map_values(
            |m: rows::Maintainer| user::ShortModel { username: resolved_username(s.users@, m) },
        ),
        versions: versions_named(s.versions@, p.name@).map_values(
            |v: rows::Version| version_short_model(s, v),
        ),
        downloads: p.downloads,
        likes: like_count(s.likes@, p.name@) as i32,
    }
}

/// One page of package rows, ordered by creation time descending: under
/// well-formedness the table is ordered by creation ascending, so a page is
/// a slice of the reversed table.
pub open spec fn page_rows(ps: Seq<rows::Package>, page: u32, limit: u32) -> Seq<rows::Package> {
    let off = (page - 1) as int * limit as int;
    let rev = ps.reverse();
    if off >= rev.len() {
        Seq::empty()
    } else if off + limit <= rev.len() {
        rev.subrange(off, off + limit as int)
    } else {
        rev.subrange(off, rev.len() as int)
    }
}

/// The names of one page of packages.
pub open spec fn page_names(s: Store, page: u32, limit: u32) -> Seq<Seq<char>> {
    page_rows(s.packages@, page, limit).map_values(|p: rows::Package| p.name@)
}

/// Whether a maintainer link of one of the named packages references a user
/// that does not exist — the internal consistency violation the listing
/// reports.
pub open spec fn has_dangling(s: Store, names: Seq<Seq<char>>) -> bool {
    exists|j: int|
        0 <= j < maintainers_in(s.maintainers@, names).len() && first_user_by_id(
            s.users@,
            (#[trigger] maintainers_in(s.maintainers@, names)[j]).user,
        ) is None
}

proof fn lemma_select_descriptions(ds: Seq<rows::Description>, keys: Seq<Seq<char>>, name: Seq<char>)
    requires
        keys.len() == ds.len(),
        forall|i: int| 0 <= i < ds.len() ==> keys[i] == (#[trigger] ds[i]).package@,
    ensures
        select_by_key(ds, keys, name) == descriptions_named(ds, name),
    decreases ds.len(),
{
    reveal(Seq::filter);
    if ds.len() > 0 {
        lemma_select_descriptions(ds.drop_last(), keys.drop_last(), name);
    }
}

proof fn lemma_select_maintainer_rows(
    ms: Seq<rows::Maintainer>,
    keys: Seq<Seq<char>>,
    name: Seq<char>,
)
    requires
        keys.len() == ms.len(),
        forall|i: int| 0 <= i < ms.len() ==> keys[i] == (#[trigger] ms[i]).package@,
    ensures
        select_by_key(ms, keys, name) == maintainers_named(ms, name),
    decreases ms.len(),
{
    reveal(Seq::filter);
    if ms.len() > 0 {
        lemma_select_maintainer_rows(ms.drop_last(), keys.drop_last(), name);
    }
}

proof fn lemma_select_versions(vs: Seq<rows::Version>, keys: Seq<Seq<char>>, name: Seq<char>)
    requires
        keys.len() == vs.len(),
        forall|i: int| 0 <= i < vs.len() ==> keys[i] == (#[trigger] vs[i]).package@,
    ensures
        select_by_key(vs, keys, name) == versions_named(vs, name),
    decreases vs.len(),
{
    reveal(Seq::filter);
    if vs.len() > 0 {
        lemma_select_versions(vs.drop_last(), keys.drop_last(), name);
    }
}

// --------------------------------------------------- short-form exec helpers

/// Reduces dependency rows to their short form, order kept.
fn build_dep_shorts(ds: &Vec<rows::Dependency>) -> (r: Vec<dependency::Short>)
    ensures
        r.deep_view() == ds@.map_values(|d: rows::Dependency| dep_short_model(d)),
{
    let mut r: Vec<dependency::Short> = Vec::new();
    let mut i: usize = 0;
    while i < ds.len()
        invariant
            i <= ds@.len(),
            r@.len() == i,
            r.deep_view() == ds@.take(i as int).map_values(
                |d: rows::Dependency| dep_short_model(d),
            ),
        decreases ds@.len() - i,
    {
        let ghost prev = r.deep_view();
        let ghost m = dep_short_model(ds@[i as int]);
        r.push(
            dependency::Short {
                package: ds[i].target.clone(),
                spec_str: ds[i].spec_str.clone(),
            },
        );
        proof {
            assert(r.deep_view() =~= prev.push(m));
            assert(ds@.take(i as int + 1).map_values(|d: rows::Dependency| dep_short_model(d))
                =~= ds@.take(i as int).map_values(|d: rows::Dependency| dep_short_model(d)).push(
                m,
            ));
        }
        i += 1;
    }
    proof {
        assert(ds@.take(ds@.len() as int) =~= ds@);
    }
    r
}

/// Zips each version with its grouped dependency rows, by position.
fn zip_version_groups(vs: Vec<rows::Version>, groups: Vec<Vec<rows::Dependency>>) -> (r: Vec<
    (rows::Version, Vec<rows::Dependency>),
>)
    requires
        vs@.len() == groups@.len(),
    ensures
        r@.len() == vs@.len(),
        forall|i: int| 0 <= i < vs@.len() ==> #[trigger] r@[i] == (vs@[i], groups@[i]),
{
    let ghost vq = vs@;
    let ghost gq = groups@;
    let mut r: Vec<(rows::Version, Vec<rows::Dependency>)> = Vec::new();
    let mut vs = vs;
    let mut groups = groups;
    while vs.len() > 0
        invariant
            r@.len() <= vq.len(),
            vq.len() == gq.len(),
            vs@ == vq.skip(r@.len() as int),
            groups@ == gq.skip(r@.len() as int),
            forall|t: int| 0 <= t < r@.len() ==> #[trigger] r@[t] == (vq[t], gq[t]),
        decreases vs@.len(),
    {
        let ghost i = r@.len() as int;
        let v = vs.remove(0);
        let g = groups.remove(0);
        proof {
            assert(v == vq[i]);
            assert(g == gq[i]);
            assert(vs@ =~= vq.skip(i + 1));
            assert(groups@ =~= gq.skip(i + 1));
        }
        r.push((v, g));
    }
    r
}

/// Assembles short versions from (row, grouped dependencies) pairs.
fn build_version_shorts(pairs: &Vec<(rows::Version, Vec<rows::Dependency>)>) -> (r: Vec<
    version::Short,
>)
    ensures
        r.deep_view() == pairs@.map_values(
            |p: (rows::Version, Vec<rows::Dependency>)| version_pair_short_model(p),
        ),
{
    let mut r: Vec<version::Short> = Vec::new();
    let mut i: usize = 0;
    while i < pairs.len()
        invariant
            i <= pairs@.len(),
            r@.len() == i,
            r.deep_view() == pairs@.take(i as int).map_values(
                |p: (rows::Version, Vec<rows::Dependency>)| version_pair_short_model(p),
            ),
        decreases pairs@.len() - i,
    {
        let p = &pairs[i];
        let ghost prev = r.deep_view();
        let ghost m = version_pair_short_model(pairs@[i as int]);
        r.push(
            version::Short {
                version: p.0.version.clone(),
                url: String::new(),
                dependencies: build_dep_shorts(&p.1),
            },
        );
        proof {
            assert(r@[i as int].deep_view() =~~= m);
            assert(r.deep_view() =~= prev.push(m));
            assert(pairs@.take(i as int + 1).map_values(
                |p: (rows::Version, Vec<rows::Dependency>)| version_pair_short_model(p),
            ) =~= pairs@.take(i as int).map_values(
                |p: (rows::Version, Vec<rows::Dependency>)| version_pair_short_model(p),
            ).push(m));
        }
        i += 1;
    }
    proof {
        assert(pairs@.take(pairs@.len() as int) =~= pairs@);
    }
    r
}

/// First aggregate row whose package has the characters of `name`.
fn find_like_entry(gl: &Vec<rows::GroupedLike>, name: &String) -> (r: Option<i64>)
    ensures
        match r {
            Some(c) => exists|j: int|
                0 <= j < gl@.len() && (#[trigger] gl@[j]).package@ == name@ && gl@[j].likes == c,
            None => forall|j: int| 0 <= j < gl@.len() ==> (#[trigger] gl@[j]).package@ != name@,
        },
{
    let mut j: usize = 0;
    while j < gl.len()
        invariant
            j <= gl@.len(),
            forall|t: int| 0 <= t < j ==> (#[trigger] gl@[t]).package@ != name@,
        decreases gl@.len() - j,
    {
        if gl[j].package.eq(name) {
            return Some(gl[j].likes);
        }
        j += 1;
    }
    None
}

// -------------------------------------------------------- single package read

/// Reads one package in full: the package row, its aggregate like count,
/// and the whole version graph, each child type loaded in one batched pass
/// and distributed by the grouping engine.
#[verifier::loop_isolation(false)]
#[verifier::rlimit(100)]
pub fn get_package(s: &Store, name: &String) -> (r: Result<package::Full, DbError>)
    requires
        s.wf(),
    ensures
        r is Ok <==> find_package(s.packages@, name@) is Some,
        match r {
            Ok(p) => p.deep_view() == package_full_model(
                *s,
                find_package(s.packages@, name@)->Some_0,
            ),
            Err(e) => e == DbError::NotFound,
        },
{
    let pi = match find_package_row(s, name) {
        None => {
            return Err(DbError::NotFound);
        },
        Some(pi) => pi,
    };
    let likes = count_likes(s, name);

    let versions = fetch_versions_named(s, name);
    let ghost vs = versions@;
    proof {
        lemma_filter_distinct_by(
            s.versions@,
            |v: rows::Version| v.package@ == name@,
            |v: rows::Version| v.id,
        );
    }
    let vids = collect_version_ids(&versions);
    assert(distinct_keys(vids@));

    let deps = fetch_deps_in(s, &vids);
    let ghost ds = deps@;
    proof {
        lemma_filter_distinct_by(
            s.dependencies@,
            |d: rows::Dependency| vids@.contains(d.version),
            |d: rows::Dependency| d.id,
        );
    }
    let contents = fetch_contents_in(s, &vids);
    let texts = fetch_texts_in(s, &vids);
    let maintainers = fetch_maintainer_names(s, name);
    let descriptions = fetch_descriptions_named(s, name);

    let dids = collect_dep_ids(&deps);
    assert(distinct_keys(dids@));
    let depdescs = fetch_depdescs_in(s, &dids);
    let ghost dd = depdescs@;

    // group the dependency descriptions by their owning dependency
    let dd_keys = collect_depdesc_deps(&depdescs);
    let dd_groups = match group_by_id(depdescs, &dd_keys, &dids) {
        Ok(g) => g,
        Err(e) => {
            proof {
                let j = choose|j: int|
                    0 <= j < dd_keys@.len() && !dids@.contains(#[trigger] dd_keys@[j]);
                s.dependency_descriptions@.lemma_filter_pred(
                    |d: rows::DependencyDescription| dids@.contains(d.dependency),
                    j,
                );
                assert(false);
            }
            return Err(DbError::NotFound);
        },
    };
    let ghost ddg = dd_groups@;
    proof {
        assert forall|t: int| 0 <= t < ds.len() implies #[trigger] ddg[t]@ == depdescs_of(
            s.dependency_descriptions@,
            ds[t].id,
        ) by {
            assert(dids@[t] == ds[t].id);
            lemma_select_depdescs(dd, dd_keys@, dids@[t]);
            assert(dids@.contains(dids@[t]));
            lemma_filter_filter(
                s.dependency_descriptions@,
                |d: rows::DependencyDescription| d.dependency == dids@[t],
                |d: rows::DependencyDescription| dids@.contains(d.dependency),
            );
        }
    }

    // zip each dependency with its descriptions, then group by version
    let dep_vkeys = collect_dep_versions(&deps);
    let pairs = zip_dep_groups(deps, dd_groups);
    let ghost prs = pairs@;
    let pair_groups = match group_by_id(pairs, &dep_vkeys, &vids) {
        Ok(g) => g,
        Err(e) => {
            proof {
                let j = choose|j: int|
                    0 <= j < dep_vkeys@.len() && !vids@.contains(#[trigger] dep_vkeys@[j]);
                s.dependencies@.lemma_filter_pred(
                    |d: rows::Dependency| vids@.contains(d.version),
                    j,
                );
                assert(false);
            }
            return Err(DbError::NotFound);
        },
    };

    // group contents and texts by version
    let content_keys = collect_content_versions(&contents);
    let ghost cs = contents@;
    let content_groups = match group_by_id(contents, &content_keys, &vids) {
        Ok(g) => g,
        Err(e) => {
            proof {
                let j = choose|j: int|
                    0 <= j < content_keys@.len() && !vids@.contains(#[trigger] content_keys@[j]);
                s.contents@.lemma_filter_pred(
                    |c: rows::ContentNode| vids@.contains(c.version),
                    j,
                );
                assert(false);
            }
            return Err(DbError::NotFound);
        },
    };
    let text_keys = collect_text_versions(&texts);
    let ghost tx = texts@;
    let text_groups = match group_by_id(texts, &text_keys, &vids) {
        Ok(g) => g,
        Err(e) => {
            proof {
                let j = choose|j: int|
                    0 <= j < text_keys@.len() && !vids@.contains(#[trigger] text_keys@[j]);
                s.version_texts@.lemma_filter_pred(
                    |t: rows::VersionText| vids@.contains(t.version),
                    j,
                );
                assert(false);
            }
            return Err(DbError::NotFound);
        },
    };

    // per-version facts behind the three groupings
    proof {
        assert forall|t: int| 0 <= t < vs.len() implies {
            &&& #[trigger] content_groups@[t]@ == contents_of(s.contents@, vs[t].id)
            &&& text_groups@[t]@ == texts_of(s.version_texts@, vs[t].id)
        } by {
            assert(vids@[t] == vs[t].id);
            assert(vids@.contains(vids@[t]));
            lemma_select_contents(cs, content_keys@, vids@[t]);
            lemma_filter_filter(
                s.contents@,
                |c: rows::ContentNode| c.version == vids@[t],
                |c: rows::ContentNode| vids@.contains(c.version),
            );
            lemma_select_texts(tx, text_keys@, vids@[t]);
            lemma_filter_filter(
                s.version_texts@,
                |x: rows::VersionText| x.version == vids@[t],
                |x: rows::VersionText| vids@.contains(x.version),
            );
        }
    }

    // assemble each version positionally
    let ghost pg = pair_groups@;
    let ghost cg = content_groups@;
    let ghost tg = text_groups@;
    let mut pair_groups = pair_groups;
    let mut content_groups = content_groups;
    let mut text_groups = text_groups;
    let mut out_versions: Vec<version::Full> = Vec::new();
    let mut i: usize = 0;
    while i < versions.len()
        invariant
            i <= vs.len(),
            pair_groups@ == pg.skip(i as int),
            content_groups@ == cg.skip(i as int),
            text_groups@ == tg.skip(i as int),
            out_versions@.len() == i,
            out_versions.deep_view() == vs.take(i as int).map_values(
                |v: rows::Version| version_full_model(*s, v),
            ),
        decreases vs.len() - i,
    {
        let v = &versions[i];
        let vpairs = pair_groups.remove(0);
        let vcontents = content_groups.remove(0);
        let vtexts = text_groups.remove(0);
        proof {
            assert(vpairs == pg[i as int]);
            assert(vcontents == cg[i as int]);
            assert(vtexts == tg[i as int]);
            assert(pair_groups@ =~= pg.skip(i as int + 1));
            assert(content_groups@ =~= cg.skip(i as int + 1));
            assert(text_groups@ =~= tg.skip(i as int + 1));
        }
        let (chg, rdm) = split_texts(&vtexts);
        let deps_full = build_dep_fulls(&vpairs);
        let conts = build_contents(&vcontents);
        proof {
            // the pair group for this version projects to its dependencies
            assert(vids@[i as int] == vs[i as int].id);
            assert(vids@.contains(vids@[i as int]));
            assert(vpairs@ == select_by_key(prs, dep_vkeys@, vids@[i as int]));
            lemma_select_zip_first(prs, ds, dep_vkeys@, vids@[i as int]);
            lemma_select_deps(ds, dep_vkeys@, vids@[i as int]);
            lemma_filter_filter(
                s.dependencies@,
                |d: rows::Dependency| d.version == vids@[i as int],
                |d: rows::Dependency| vids@.contains(d.version),
            );
            let vdeps = deps_of(s.dependencies@, vs[i as int].id);
            assert(vpairs@.map_values(
                |p: (rows::Dependency, Vec<rows::DependencyDescription>)| p.0,
            ) == vdeps);
            lemma_select_elements(prs, dep_vkeys@, vids@[i as int]);
            assert forall|j: int| 0 <= j < vpairs@.len() implies dep_pair_model(
                #[trigger] vpairs@[j],
            ) == dep_full_model(*s, vdeps[j]) by {
                assert(vpairs@.map_values(
                    |p: (rows::Dependency, Vec<rows::DependencyDescription>)| p.0,
                )[j] == vdeps[j]);
                assert(vpairs@[j].0 == vdeps[j]);
                let t = choose|t: int| 0 <= t < prs.len() && prs[t] == vpairs@[j];
                assert(prs[t] == (ds[t], ddg[t]));
                assert(prs[t].1 == ddg[t]);
                assert(ddg[t]@ == depdescs_of(s.dependency_descriptions@, ds[t].id));
                assert(vpairs@[j].1@ == depdescs_of(s.dependency_descriptions@, vpairs@[j].0.id));
            }
            assert(deps_full.deep_view() =~~= vdeps.map_values(
                |d: rows::Dependency| dep_full_model(*s, d),
            ));
        }
        let ghost prev_out = out_versions.deep_view();
        out_versions.push(
            version::Full {
                version: v.version.clone(),
                changes: chg,
                readme: rdm,
                url: String::new(),
                dependencies: deps_full,
                contents: conts,
                created: v.created,
            },
        );
        proof {
            assert(out_versions@[i as int].deep_view() =~~= version_full_model(
                *s,
                vs[i as int],
            ));
            assert(out_versions.deep_view() =~= prev_out.push(
                version_full_model(*s, vs[i as int]),
            ));
            assert(vs.take(i as int + 1).map_values(|v: rows::Version| version_full_model(*s, v))
                =~= vs.take(i as int).map_values(|v: rows::Version| version_full_model(*s, v)).push(
                version_full_model(*s, vs[i as int]),
            ));
        }
        i += 1;
    }
    proof {
        assert(vs.take(vs.len() as int) =~= vs);
    }

    let p = &s.packages[pi];
    let result = package::Full {
        name: p.name.clone(),
        description: build_descriptions(&descriptions),
        website: p.website.clone(),
        license: p.license.clone(),
        authors: p.authors.clone(),
        maintainers: build_user_shorts(&maintainers),
        versions: out_versions,
        downloads: p.downloads,
        likes,
        created: p.created,
        updated: p.updated,
    };
    proof {
        let prow = find_package(s.packages@, name@)->Some_0;
        assert(prow == s.packages@[pi as int]);
        assert(prow.name@ == name@);
        assert(result.authors.deep_view() =~~= prow.authors.deep_view());
        assert(result.maintainers.deep_view() =~~= maintainer_names_of(
            s.users@,
            s.maintainers@,
            prow.name@,
        ).map_values(|n: Seq<char>| user::ShortModel { username: n }));
        assert(result.deep_view() == package_full_model(*s, prow));
    }
    Ok(result)
}

// ------------------------------------------------------ paginated page read

/// Reads one page of packages in short form, most recently created first.
/// The page's children are loaded in four further batched passes and
/// distributed by the grouping engine; a maintainer link whose user is
/// missing fails the whole read as an internal consistency violation.
#[verifier::loop_isolation(false)]
#[verifier::rlimit(100)]
pub fn list_packages(s: &Store, page: u32, limit: u32) -> (r: Result<Vec<package::Short>, DbError>)
    requires
        s.wf(),
        page >= 1,
        limit >= 1,
    ensures
        r is Ok <==> !has_dangling(*s, page_names(*s, page, limit)),
        match r {
            Ok(out) => out.deep_view() == page_rows(s.packages@, page, limit).map_values(
                |p: rows::Package| package_short_model(*s, p),
            ),
            Err(e) => e == DbError::InternalConsistency,
        },
{
    let ghost pg_rows = page_rows(s.packages@, page, limit);
    let n = s.packages.len();
    let pm1: u64 = page as u64 - 1;
    let lm: u64 = limit as u64;
    assert(pm1 * lm <= u64::MAX - 0x1_0000_0000u64) by (nonlinear_arith)
        requires
            pm1 < 0x1_0000_0000u64,
            lm < 0x1_0000_0000u64,
    ;
    let off: u64 = pm1 * lm;

    // the page itself: a slice of the reversed table, taken by index
    let mut idxs: Vec<usize> = Vec::new();
    let mut names: Vec<String> = Vec::new();
    let mut k: u64 = 0;
    while k < limit as u64 && off + k < n as u64
        invariant
            k <= limit as u64,
            k == 0 || off + k <= n as u64,
            idxs@.len() == k,
            names@.len() == k,
            forall|t: int|
                0 <= t < k ==> #[trigger] idxs@[t] == n - 1 - off - t,
            forall|t: int|
                0 <= t < k ==> #[trigger] names@[t] == s.packages@[n - 1 - off - t].name,
        decreases n as int - off - k,
    {
        let idx: usize = n - 1 - ((off + k) as usize);
        idxs.push(idx);
        names.push(s.packages[idx].name.clone());
        k += 1;
    }
    proof {
        assert(pg_rows.len() == k) by {
            assert(s.packages@.reverse().len() == n);
            if k == 0 {
                assert(!(0 < limit as u64 && off + 0 < n as u64));
                assert(off >= n as u64);
            } else if k < limit as u64 {
                assert(off + k == n as u64);
            } else {
                assert(off + k <= n as u64);
            }
        }
        assert forall|t: int| 0 <= t < k implies #[trigger] pg_rows[t] == s.packages@[n - 1 - off
            - t] by {
            assert(s.packages@.reverse()[off + t] == s.packages@[n - 1 - (off + t)]);
        }
        assert forall|t: int| 0 <= t < k implies #[trigger] names@[t] == pg_rows[t].name by {}
        assert(name_views(names@) =~= page_names(*s, page, limit));
        // distinct page names, from the store's unique package names
        assert forall|a: int, b: int| 0 <= a < b < k implies name_views(names@)[a] != name_views(
            names@,
        )[b] by {
            let ia = n - 1 - off - a;
            let ib = n - 1 - off - b;
            assert(crate::store::package_names(s.packages@)[ib]
                != crate::store::package_names(s.packages@)[ia]);
            assert(name_views(names@)[a] == s.packages@[ia].name@);
            assert(name_views(names@)[b] == s.packages@[ib].name@);
        }
        assert(distinct_keys(name_views(names@)));
    }

    // package descriptions for the page, grouped by package
    let descriptions = fetch_descriptions_in(s, &names);
    let ghost dsq = descriptions@;
    let desc_keys = collect_description_packages(&descriptions);
    let desc_groups = match group_by_name(descriptions, &desc_keys, &names) {
        Ok(g) => g,
        Err(_) => {
            proof {
                let j = choose|j: int|
                    0 <= j < name_views(desc_keys@).len() && !name_views(names@).contains(
                        #[trigger] name_views(desc_keys@)[j],
                    );
                s.descriptions@.lemma_filter_pred(
                    |d: rows::Description| name_views(names@).contains(d.package@),
                    j,
                );
                assert(name_views(desc_keys@)[j] == dsq[j].package@);
                assert(false);
            }
            return Err(DbError::InternalConsistency);
        },
    };
    let ghost dgq = desc_groups@;
    proof {
        assert forall|t: int| 0 <= t < k implies #[trigger] dgq[t]@ == descriptions_named(
            s.descriptions@,
            pg_rows[t].name@,
        ) by {
            assert(name_views(names@)[t] == pg_rows[t].name@);
            assert(name_views(names@).contains(name_views(names@)[t]));
            lemma_select_descriptions(dsq, name_views(desc_keys@), name_views(names@)[t]);
            lemma_filter_filter(
                s.descriptions@,
                |d: rows::Description| d.package@ == name_views(names@)[t],
                |d: rows::Description| name_views(names@).contains(d.package@),
            );
        }
    }

    // maintainer links for the page, resolved through the user table
    let mrows = fetch_maintainers_in(s, &names);
    let ghost msq = mrows@;
    let rnames = match resolve_usernames(&mrows, &s.users) {
        Ok(r) => r,
        Err(_) => {
            proof {
                assert(has_dangling(*s, page_names(*s, page, limit)));
            }
            return Err(DbError::InternalConsistency);
        },
    };
    let ghost rnq = rnames@;
    proof {
        assert(!has_dangling(*s, page_names(*s, page, limit))) by {
            assert(maintainers_in(s.maintainers@, page_names(*s, page, limit)) == msq) by {
                assert(name_views(names@) == page_names(*s, page, limit));
            }
        }
    }
    let m_keys = collect_maintainer_packages(&mrows);
    let name_groups = match group_by_name(rnames, &m_keys, &names) {
        Ok(g) => g,
        Err(_) => {
            proof {
                let j = choose|j: int|
                    0 <= j < name_views(m_keys@).len() && !name_views(names@).contains(
                        #[trigger] name_views(m_keys@)[j],
                    );
                s.maintainers@.lemma_filter_pred(
                    |m: rows::Maintainer| name_views(names@).contains(m.package@),
                    j,
                );
                assert(name_views(m_keys@)[j] == msq[j].package@);
                assert(false);
            }
            return Err(DbError::InternalConsistency);
        },
    };
    let ghost ngq = name_groups@;
    proof {
        assert forall|t: int| 0 <= t < k implies {
            let mnt = maintainers_named(s.maintainers@, pg_rows[t].name@);
            &&& (#[trigger] ngq[t])@.len() == mnt.len()
            &&& (forall|j: int|
                0 <= j < mnt.len() ==> (#[trigger] ngq[t]@[j])@ == resolved_username(
                    s.users@,
                    mnt[j],
                ))
        } by {
            assert(name_views(names@)[t] == pg_rows[t].name@);
            assert(name_views(names@).contains(name_views(names@)[t]));
            lemma_select_maintainer_rows(msq, name_views(m_keys@), name_views(names@)[t]);
            lemma_filter_filter(
                s.maintainers@,
                |m: rows::Maintainer| m.package@ == name_views(names@)[t],
                |m: rows::Maintainer| name_views(names@).contains(m.package@),
            );
            lemma_select_parallel(
                msq,
                rnq,
                name_views(m_keys@),
                name_views(names@)[t],
                |m: rows::Maintainer, nm: String| first_user_by_id(s.users@, m.user) is Some
                    && nm@ == resolved_username(s.users@, m),
            );
            assert(ngq[t]@ == select_by_key(rnq, name_views(m_keys@), name_views(names@)[t]));
            let mnt = maintainers_named(s.maintainers@, pg_rows[t].name@);
            assert(select_by_key(msq, name_views(m_keys@), name_views(names@)[t]) == mnt);
            assert(ngq[t]@.len() == mnt.len());
            assert forall|j: int| 0 <= j < mnt.len() implies (#[trigger] ngq[t]@[j])@
                == resolved_username(s.users@, mnt[j]) by {
                assert(select_by_key(rnq, name_views(m_keys@), name_views(names@)[t])[j]
                    == ngq[t]@[j]);
            }
        }
    }

    // aggregate like counts for exactly the page's packages
    let glikes = grouped_likes(s, &names);
    proof {
        assert forall|a: int, b: int| 0 <= a < b < names@.len() implies names@[a]@ != names@[b]@
            by {
            assert(name_views(names@)[a] == names@[a]@);
            assert(name_views(names@)[b] == names@[b]@);
        }
        lemma_filter_distinct_by(names@, |nm: String| like_count(s.likes@, nm@) > 0, |nm: String| nm@);
    }

    // versions of the page's packages, their dependencies grouped by version
    let vrows = fetch_versions_in(s, &names);
    let ghost vsq = vrows@;
    proof {
        lemma_filter_distinct_by(
            s.versions@,
            |v: rows::Version| name_views(names@).contains(v.package@),
            |v: rows::Version| v.id,
        );
    }
    let vids = collect_version_ids(&vrows);
    assert(distinct_keys(vids@));
    let deps = fetch_deps_in(s, &vids);
    let ghost depq = deps@;
    let dep_vkeys = collect_dep_versions(&deps);
    let dgroups = match group_by_id(deps, &dep_vkeys, &vids) {
        Ok(g) => g,
        Err(_) => {
            proof {
                let j = choose|j: int|
                    0 <= j < dep_vkeys@.len() && !vids@.contains(#[trigger] dep_vkeys@[j]);
                s.dependencies@.lemma_filter_pred(
                    |d: rows::Dependency| vids@.contains(d.version),
                    j,
                );
                assert(false);
            }
            return Err(DbError::InternalConsistency);
        },
    };
    let ghost depgq = dgroups@;
    proof {
        assert forall|t: int| 0 <= t < vsq.len() implies #[trigger] depgq[t]@ == deps_of(
            s.dependencies@,
            vsq[t].id,
        ) by {
            assert(vids@[t] == vsq[t].id);
            assert(vids@.contains(vids@[t]));
            lemma_select_deps(depq, dep_vkeys@, vids@[t]);
            lemma_filter_filter(
                s.dependencies@,
                |d: rows::Dependency| d.version == vids@[t],
                |d: rows::Dependency| vids@.contains(d.version),
            );
        }
    }
    let v_pkg_keys = collect_version_packages(&vrows);
    let vdep_pairs = zip_version_groups(vrows, dgroups);
    let ghost vpq = vdep_pairs@;
    let pair_groups = match group_by_name(vdep_pairs, &v_pkg_keys, &names) {
        Ok(g) => g,
        Err(_) => {
            proof {
                let j = choose|j: int|
                    0 <= j < name_views(v_pkg_keys@).len() && !name_views(names@).contains(
                        #[trigger] name_views(v_pkg_keys@)[j],
                    );
                s.versions@.lemma_filter_pred(
                    |v: rows::Version| name_views(names@).contains(v.package@),
                    j,
                );
                assert(name_views(v_pkg_keys@)[j] == vsq[j].package@);
                assert(false);
            }
            return Err(DbError::InternalConsistency);
        },
    };
    let ghost vpgq = pair_groups@;

    // assemble each page entry positionally
    let mut desc_groups = desc_groups;
    let mut name_groups = name_groups;
    let mut pair_groups = pair_groups;
    let mut out: Vec<package::Short> = Vec::new();
    let mut t: usize = 0;
    while t < names.len()
        invariant
            t <= names@.len(),
            out@.len() == t,
            desc_groups@ == dgq.skip(t as int),
            name_groups@ == ngq.skip(t as int),
            pair_groups@ == vpgq.skip(t as int),
            out.deep_view() == pg_rows.take(t as int).map_values(
                |p: rows::Package| package_short_model(*s, p),
            ),
        decreases names@.len() - t,
    {
        let kdescs = desc_groups.remove(0);
        let knames = name_groups.remove(0);
        let kpairs = pair_groups.remove(0);
        proof {
            assert(kdescs == dgq[t as int]);
            assert(knames == ngq[t as int]);
            assert(kpairs == vpgq[t as int]);
            assert(desc_groups@ =~= dgq.skip(t as int + 1));
            assert(name_groups@ =~= ngq.skip(t as int + 1));
            assert(pair_groups@ =~= vpgq.skip(t as int + 1));
        }
        let likes_found = find_like_entry(&glikes, &names[t]);
        let ghost row = pg_rows[t as int];
        proof {
            // the aggregate row, when present, carries this package's count
            assert(names@[t as int]@ == row.name@);
            s.likes@.lemma_filter_len(|l: rows::Like| l.package@ == row.name@);
            match likes_found {
                Some(c) => {
                    let j = choose|j: int|
                        0 <= j < glikes@.len() && (#[trigger] glikes@[j]).package@
                            == names@[t as int]@ && glikes@[j].likes == c;
                    let pos = names@.filter(|nm: String| like_count(s.likes@, nm@) > 0);
                    assert(glikes@[j].package == pos[j]);
                    assert(glikes@[j].likes == like_count(s.likes@, pos[j]@) as i64);
                    assert(c == like_count(s.likes@, row.name@) as i64);
                },
                None => {
                    if like_count(s.likes@, row.name@) > 0 {
                        let pos = names@.filter(|nm: String| like_count(s.likes@, nm@) > 0);
                        names@.lemma_filter_contains(
                            |nm: String| like_count(s.likes@, nm@) > 0,
                            t as int,
                        );
                        let j = choose|j: int| 0 <= j < pos.len() && pos[j] == names@[t as int];
                        assert(glikes@[j].package@ == names@[t as int]@);
                        assert(false);
                    }
                },
            }
        }
        let likes_k: i64 = match likes_found {
            Some(c) => c,
            None => 0,
        };
        assert(likes_k as int == like_count(s.likes@, row.name@));
        let likes32: i32 = likes_k as i32;
        let p_short = package::Short {
            name: names[t].clone(),
            description: build_descriptions(&kdescs),
            maintainers: build_user_shorts(&knames),
            versions: build_version_shorts(&kpairs),
            downloads: s.packages[idxs[t]].downloads,
            likes: likes32,
        };
        let ghost prev_out = out.deep_view();
        out.push(p_short);
        proof {
            // short versions of this package, with their own dependencies
            assert(name_views(names@)[t as int] == row.name@);
            assert(name_views(names@).contains(name_views(names@)[t as int]));
            assert(kpairs@ == select_by_key(vpq, name_views(v_pkg_keys@), name_views(
                names@,
            )[t as int]));
            lemma_select_zip_first(vpq, vsq, name_views(v_pkg_keys@), name_views(names@)[t as int]);
            lemma_select_versions(vsq, name_views(v_pkg_keys@), name_views(names@)[t as int]);
            lemma_filter_filter(
                s.versions@,
                |v: rows::Version| v.package@ == name_views(names@)[t as int],
                |v: rows::Version| name_views(names@).contains(v.package@),
            );
            let krows = versions_named(s.versions@, row.name@);
            assert(kpairs@.map_values(|p: (rows::Version, Vec<rows::Dependency>)| p.0) == krows);
            lemma_select_elements(vpq, name_views(v_pkg_keys@), name_views(names@)[t as int]);
            assert forall|j: int| 0 <= j < kpairs@.len() implies version_pair_short_model(
                #[trigger] kpairs@[j],
            ) == version_short_model(*s, krows[j]) by {
                assert(kpairs@.map_values(
                    |p: (rows::Version, Vec<rows::Dependency>)| p.0,
                )[j] == krows[j]);
                assert(kpairs@[j].0 == krows[j]);
                let w = choose|w: int| 0 <= w < vpq.len() && vpq[w] == kpairs@[j];
                assert(vpq[w] == (vsq[w], depgq[w]));
                assert(depgq[w]@ == deps_of(s.dependencies@, vsq[w].id));
                assert(kpairs@[j].1@ == deps_of(s.dependencies@, kpairs@[j].0.id));
            }
            assert(out@[t as int].versions.deep_view() =~= krows.map_values(
                |v: rows::Version| version_short_model(*s, v),
            ));
            // maintainers of this package, in link order
            assert(out@[t as int].maintainers.deep_view() =~= maintainers_named(
                s.maintainers@,
                row.name@,
            ).map_values(
                |m: rows::Maintainer| user::ShortModel {
                    username: resolved_username(s.users@, m),
                },
            )) by {
                assert(knames == ngq[t as int]);
                assert(names@.len() == k);
                assert((t as int) < k as int);
                let mn = maintainers_named(s.maintainers@, pg_rows[t as int].name@);
                assert(ngq[t as int]@.len() == mn.len());
                assert(knames@.len() == mn.len());
                assert forall|j: int| 0 <= j < knames@.len() implies (#[trigger] knames@[j])@
                    == resolved_username(s.users@, mn[j]) by {
                    assert(ngq[t as int]@[j]@ == resolved_username(s.users@, mn[j]));
                }
            }
            assert(out@[t as int].deep_view() =~~= package_short_model(*s, row));
            assert(out.deep_view() =~= prev_out.push(package_short_model(*s, row)));
            assert(pg_rows.take(t as int + 1).map_values(
                |p: rows::Package| package_short_model(*s, p),
            ) =~= pg_rows.take(t as int).map_values(
                |p: rows::Package| package_short_model(*s, p),
            ).push(package_short_model(*s, row)));
        }
        t += 1;
    }
    proof {
        assert(pg_rows.take(pg_rows.len() as int) =~= pg_rows);
    }
    Ok(out)
}

} // verus!
