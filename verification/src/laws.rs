//! The laws this library states of itself, proved once and for all: what
//! the assembler never attaches, how pagination partitions the catalogue,
//! and what a publish followed by a read gives back.

use vstd::prelude::*;

use crate::assemble::{
    dep_full_model, find_package, package_full_model, page_names, page_rows, version_full_model,
};
use crate::package;
use crate::publish::{
    content_rows_upto, content_rows_ver_upto, dep_rows_for_version, dep_rows_upto, has_room,
    lemma_content_rows_flat, lemma_dep_rows_flat, lemma_find_package_none, new_content_rows,
    new_dep_rows, new_version_rows, publish_applied, publish_check, total_contents, total_deps,
};
use crate::queries::{contents_of, deps_of, versions_named};
use crate::rows;
use crate::seqs::{lemma_filter_all, lemma_filter_none};
use crate::store::{package_names, Store};

verus! {

/// Law: a dependency of kind `BuildRequire` or `RuntimeRequire` always
/// assembles with an absent description collection, whatever description
/// rows exist in storage — the assembler never attaches them.
pub proof fn lemma_non_optional_dependency_bare(s: Store, p: rows::Package, i: int, j: int)
    requires
        0 <= i < package_full_model(s, p).versions.len(),
        0 <= j < package_full_model(s, p).versions[i].dependencies.len(),
        !(package_full_model(s, p).versions[i].dependencies[j].dep_type is Optional),
    ensures
        package_full_model(s, p).versions[i].dependencies[j].description is None,
{
}

/// Law: two different pages of the same size never share a package name.
pub proof fn lemma_pages_disjoint(s: Store, pa: u32, pb: u32, limit: u32)
    requires
        s.wf(),
        1 <= pa < pb,
        limit >= 1,
    ensures
        forall|a: int, b: int|
            0 <= a < page_names(s, pa, limit).len() && 0 <= b < page_names(s, pb, limit).len()
                ==> page_names(s, pa, limit)[a] != page_names(s, pb, limit)[b],
{
    let n = s.packages@.len() as int;
    let offa = (pa - 1) as int * limit as int;
    let offb = (pb - 1) as int * limit as int;
    assert(offa + limit <= offb) by (nonlinear_arith)
        requires
            offa == (pa - 1) as int * limit as int,
            offb == (pb - 1) as int * limit as int,
            1 <= pa < pb,
            limit >= 1,
    ;
    let rev = s.packages@.reverse();
    assert forall|a: int, b: int|
        0 <= a < page_names(s, pa, limit).len() && 0 <= b < page_names(
            s,
            pb,
            limit,
        ).len() implies page_names(s, pa, limit)[a] != page_names(s, pb, limit)[b] by {
        let pos_a = offa + a;
        let pos_b = offb + b;
        assert(page_rows(s.packages@, pa, limit)[a] == rev[pos_a]);
        assert(page_rows(s.packages@, pb, limit)[b] == rev[pos_b]);
        let ia = n - 1 - pos_a;
        let ib = n - 1 - pos_b;
        assert(rev[pos_a] == s.packages@[ia]);
        assert(rev[pos_b] == s.packages@[ib]);
        assert(ib < ia);
        assert(package_names(s.packages@)[ib] != package_names(s.packages@)[ia]);
        assert(page_names(s, pa, limit)[a] == s.packages@[ia].name@);
        assert(page_names(s, pb, limit)[b] == s.packages@[ib].name@);
    }
}

/// Law: the first two pages of the same size, taken together, cover
/// exactly the most recently created packages, every one of them created
/// later than everything left out.
pub proof fn lemma_first_pages_cover(s: Store, limit: u32)
    requires
        s.wf(),
        limit >= 1,
        s.packages@.len() >= 2 * limit as int,
    ensures
        page_rows(s.packages@, 1, limit) + page_rows(s.packages@, 2, limit) == s.packages@
            .reverse().take(2 * limit as int),
        forall|a: int, b: int|
            0 <= a < 2 * limit as int && 2 * limit as int <= b < s.packages@.len()
                ==> (#[trigger] s.packages@.reverse()[a]).created
                > (#[trigger] s.packages@.reverse()[b]).created,
{
    let n = s.packages@.len() as int;
    let rev = s.packages@.reverse();
    assert(page_rows(s.packages@, 1, limit) == rev.subrange(0, limit as int));
    assert(page_rows(s.packages@, 2, limit) == rev.subrange(limit as int, 2 * limit as int));
    assert(page_rows(s.packages@, 1, limit) + page_rows(s.packages@, 2, limit) =~= rev.take(
        2 * limit as int,
    ));
    assert forall|a: int, b: int|
        0 <= a < 2 * limit as int && 2 * limit as int <= b < n implies (#[trigger] rev[a]).created
        > (#[trigger] rev[b]).created by {
        assert(rev[a] == s.packages@[n - 1 - a]);
        assert(rev[b] == s.packages@[n - 1 - b]);
    }
}

proof fn lemma_find_package_append(ps: Seq<rows::Package>, q: Seq<rows::Package>, name: Seq<char>)
    requires
        find_package(ps, name) is None,
    ensures
        find_package(ps + q, name) == find_package(q, name),
    decreases ps.len(),
{
    if ps.len() == 0 {
        assert(ps + q =~= q);
    } else {
        assert((ps + q).len() > 0);
        assert((ps + q)[0] == ps[0]);
        assert((ps + q).drop_first() =~= ps.drop_first() + q);
        lemma_find_package_append(ps.drop_first(), q, name);
    }
}

proof fn lemma_new_deps_of_version(g: package::Full, vid0: int, did0: int, n: int, i: int)
    requires
        0 <= i < n <= g.versions@.len(),
        0 <= vid0,
        vid0 + g.versions@.len() <= i32::MAX,
        0 <= did0,
        did0 + total_deps(g.versions@) <= i32::MAX,
    ensures
        deps_of(dep_rows_upto(g, vid0, did0, n), (vid0 + i) as i32) == dep_rows_for_version(
            g.versions@[i],
            g.name,
            vid0 + i,
            did0 + total_deps(g.versions@.take(i)),
        ),
    decreases n,
{
    let vid: i32 = (vid0 + i) as i32;
    let left = dep_rows_upto(g, vid0, did0, n - 1);
    let right = dep_rows_for_version(
        g.versions@[n - 1],
        g.name,
        vid0 + n - 1,
        did0 + total_deps(g.versions@.take(n - 1)),
    );
    assert(dep_rows_upto(g, vid0, did0, n) == left + right);
    Seq::filter_distributes_over_add(left, right, |d: rows::Dependency| d.version == vid);
    lemma_dep_rows_flat(g, vid0, did0, n - 1);
    if i == n - 1 {
        assert forall|w: int| 0 <= w < left.len() implies !((#[trigger] left[w]).version
            == vid) by {}
        lemma_filter_none(left, |d: rows::Dependency| d.version == vid);
        assert forall|w: int| 0 <= w < right.len() implies (#[trigger] right[w]).version
            == vid by {}
        lemma_filter_all(right, |d: rows::Dependency| d.version == vid);
        assert(deps_of(left + right, vid) =~= right);
    } else {
        lemma_new_deps_of_version(g, vid0, did0, n - 1, i);
        assert forall|w: int| 0 <= w < right.len() implies !((#[trigger] right[w]).version
            == vid) by {}
        lemma_filter_none(right, |d: rows::Dependency| d.version == vid);
        assert(deps_of(left + right, vid) =~= deps_of(left, vid));
    }
}

proof fn lemma_new_contents_of_version(g: package::Full, vid0: int, cid0: int, n: int, i: int)
    requires
        0 <= i < n <= g.versions@.len(),
        0 <= vid0,
        vid0 + g.versions@.len() <= i32::MAX,
    ensures
        contents_of(content_rows_upto(g, vid0, cid0, n), (vid0 + i) as i32)
            == content_rows_ver_upto(
            g.versions@[i],
            vid0 + i,
            cid0 + total_contents(g.versions@.take(i)),
            g.versions@[i].contents@.len() as int,
        ),
    decreases n,
{
    let vid: i32 = (vid0 + i) as i32;
    let left = content_rows_upto(g, vid0, cid0, n - 1);
    let right = content_rows_ver_upto(
        g.versions@[n - 1],
        vid0 + n - 1,
        cid0 + total_contents(g.versions@.take(n - 1)),
        g.versions@[n - 1].contents@.len() as int,
    );
    assert(content_rows_upto(g, vid0, cid0, n) == left + right);
    Seq::filter_distributes_over_add(left, right, |c: rows::ContentNode| c.version == vid);
    lemma_content_rows_flat(g, vid0, cid0, n - 1);
    if i == n - 1 {
        assert forall|w: int| 0 <= w < left.len() implies !((#[trigger] left[w]).version
            == vid) by {}
        lemma_filter_none(left, |c: rows::ContentNode| c.version == vid);
        assert forall|w: int| 0 <= w < right.len() implies (#[trigger] right[w]).version
            == vid by {}
        lemma_filter_all(right, |c: rows::ContentNode| c.version == vid);
        assert(contents_of(left + right, vid) =~= right);
    } else {
        lemma_new_contents_of_version(g, vid0, cid0, n - 1, i);
        assert forall|w: int| 0 <= w < right.len() implies !((#[trigger] right[w]).version
            == vid) by {}
        lemma_filter_none(right, |c: rows::ContentNode| c.version == vid);
        assert(contents_of(left + right, vid) =~= contents_of(left, vid));
    }
}

proof fn lemma_round_trip_found(s0: Store, s1: Store, g: package::Full)
    requires
        s0.wf(),
        publish_check(s0, g) is None,
        publish_applied(s0, s1, g),
    ensures
        find_package(s1.packages@, g.name@) == Some(s1.packages@.last()),
        s1.packages@.last().name@ == g.name@,
        versions_named(s1.versions@, g.name@) == new_version_rows(
            g,
            s0.next_version_id as int,
            s0.clock,
        ),
{
    let vid0 = s0.next_version_id as int;
    let prow = s1.packages@.last();
    assert(s1.packages@ =~= s0.packages@ + seq![prow]);
    lemma_find_package_append(s0.packages@, seq![prow], g.name@);
    assert(seq![prow].len() == 1);
    assert(seq![prow][0] == prow);
    assert(prow.name@ == g.name@);
    assert(find_package(seq![prow], g.name@) == Some(prow));
    let newvs = new_version_rows(g, vid0, s0.clock);
    assert(s1.versions@ == s0.versions@ + newvs);
    Seq::filter_distributes_over_add(
        s0.versions@,
        newvs,
        |v: rows::Version| v.package@ == g.name@,
    );
    lemma_find_package_none(s0.packages@, g.name@);
    assert forall|t: int| 0 <= t < s0.versions@.len() implies !((#[trigger] s0.versions@[t]).package@
        == g.name@) by {
        assert(package_names(s0.packages@).contains(s0.versions@[t].package@));
        let w = choose|w: int|
            0 <= w < package_names(s0.packages@).len() && package_names(s0.packages@)[w]
                == s0.versions@[t].package@;
        assert(s0.packages@[w].name@ != g.name@);
    }
    lemma_filter_none(s0.versions@, |v: rows::Version| v.package@ == g.name@);
    assert forall|t: int| 0 <= t < newvs.len() implies (#[trigger] newvs[t]).package@
        == g.name@ by {}
    lemma_filter_all(newvs, |v: rows::Version| v.package@ == g.name@);
    assert(versions_named(s1.versions@, g.name@) =~= newvs);
}

proof fn lemma_round_trip_children(s0: Store, s1: Store, g: package::Full, i: int)
    requires
        s0.wf(),
        publish_check(s0, g) is None,
        publish_applied(s0, s1, g),
        0 <= i < g.versions@.len(),
    ensures
        deps_of(s1.dependencies@, (s0.next_version_id + i) as i32) == dep_rows_for_version(
            g.versions@[i],
            g.name,
            s0.next_version_id + i,
            s0.next_dependency_id + total_deps(g.versions@.take(i)),
        ),
        contents_of(s1.contents@, (s0.next_version_id + i) as i32) == content_rows_ver_upto(
            g.versions@[i],
            s0.next_version_id + i,
            s0.next_content_id + total_contents(g.versions@.take(i)),
            g.versions@[i].contents@.len() as int,
        ),
{
    let vid0 = s0.next_version_id as int;
    let did0 = s0.next_dependency_id as int;
    let cid0 = s0.next_content_id as int;
    let nv = g.versions@.len() as int;
    assert(has_room(s0, g));
    let vid: i32 = (vid0 + i) as i32;
    assert(s1.dependencies@ == s0.dependencies@ + new_dep_rows(g, vid0, did0));
    Seq::filter_distributes_over_add(
        s0.dependencies@,
        new_dep_rows(g, vid0, did0),
        |d: rows::Dependency| d.version == vid,
    );
    assert forall|t: int| 0 <= t < s0.dependencies@.len() implies !((
    #[trigger] s0.dependencies@[t]).version == vid) by {}
    lemma_filter_none(s0.dependencies@, |d: rows::Dependency| d.version == vid);
    lemma_new_deps_of_version(g, vid0, did0, nv, i);
    assert(deps_of(s1.dependencies@, vid) =~= deps_of(new_dep_rows(g, vid0, did0), vid));
    assert(s1.contents@ == s0.contents@ + new_content_rows(g, vid0, cid0));
    Seq::filter_distributes_over_add(
        s0.contents@,
        new_content_rows(g, vid0, cid0),
        |c: rows::ContentNode| c.version == vid,
    );
    assert forall|t: int| 0 <= t < s0.contents@.len() implies !((
    #[trigger] s0.contents@[t]).version == vid) by {}
    lemma_filter_none(s0.contents@, |c: rows::ContentNode| c.version == vid);
    lemma_new_contents_of_version(g, vid0, cid0, nv, i);
    assert(contents_of(s1.contents@, vid) =~= contents_of(new_content_rows(g, vid0, cid0), vid));
}

/// Law: publishing a candidate graph and reading the package back yields
/// its versions in the original batch order, each carrying exactly its own
/// dependencies and file-tree entries — no cross-contamination between
/// versions — with targets, version specs, kinds and paths intact.
#[verifier::rlimit(100)]
pub proof fn lemma_publish_read_round_trip(s0: Store, s1: Store, g: package::Full)
    requires
        s0.wf(),
        publish_check(s0, g) is None,
        publish_applied(s0, s1, g),
    ensures
        find_package(s1.packages@, g.name@) is Some,
        ({
            let p = package_full_model(s1, find_package(s1.packages@, g.name@)->Some_0);
            &&& p.name == g.name@
            &&& p.versions.len() == g.versions@.len()
            &&& forall|i: int|
                0 <= i < g.versions@.len() ==> (#[trigger] p.versions[i]).version
                    == g.versions@[i].version@
            &&& forall|i: int|
                0 <= i < g.versions@.len() ==> (#[trigger] p.versions[i]).dependencies.len()
                    == g.versions@[i].dependencies@.len()
            &&& forall|i: int, j: int|
                0 <= i < g.versions@.len() && 0 <= j < g.versions@[i].dependencies@.len() ==> {
                    let dm = (#[trigger] p.versions[i]).dependencies[#[trigger] (j + 0)];
                    &&& dm.package == g.versions@[i].dependencies@[j].package@
                    &&& dm.spec_str == g.versions@[i].dependencies@[j].spec_str@
                    &&& dm.dep_type == g.versions@[i].dependencies@[j].dep_type
                }
            &&& forall|i: int|
                0 <= i < g.versions@.len() ==> (#[trigger] p.versions[i]).contents.len()
                    == g.versions@[i].contents@.len()
            &&& forall|i: int, t: int|
                0 <= i < g.versions@.len() && 0 <= t < g.versions@[i].contents@.len() ==> {
                    let cm = (#[trigger] p.versions[i]).contents[#[trigger] (t + 0)];
                    &&& cm.path == g.versions@[i].contents@[t].path@
                    &&& cm.node_type == g.versions@[i].contents@[t].node_type
                }
        }),
{
    let vid0 = s0.next_version_id as int;
    let did0 = s0.next_dependency_id as int;
    let cid0 = s0.next_content_id as int;
    let nv = g.versions@.len() as int;
    assert(has_room(s0, g));
    lemma_round_trip_found(s0, s1, g);
    let prow = s1.packages@.last();
    let p = package_full_model(s1, prow);
    let newvs = new_version_rows(g, vid0, s0.clock);
    assert(p.versions.len() == nv);
    assert forall|i: int| 0 <= i < nv implies {
        &&& (#[trigger] p.versions[i]) == version_full_model(s1, newvs[i])
        &&& newvs[i].id as int == vid0 + i
        &&& newvs[i].version@ == g.versions@[i].version@
    } by {}
    assert forall|i: int, j: int|
        0 <= i < nv && 0 <= j < g.versions@[i].dependencies@.len() implies {
        let dm = (#[trigger] p.versions[i]).dependencies[#[trigger] (j + 0)];
        &&& p.versions[i].dependencies.len() == g.versions@[i].dependencies@.len()
        &&& dm.package == g.versions@[i].dependencies@[j].package@
        &&& dm.spec_str == g.versions@[i].dependencies@[j].spec_str@
        &&& dm.dep_type == g.versions@[i].dependencies@[j].dep_type
    } by {
        lemma_round_trip_children(s0, s1, g, i);
        let block = dep_rows_for_version(
            g.versions@[i],
            g.name,
            vid0 + i,
            did0 + total_deps(g.versions@.take(i)),
        );
        assert(p.versions[i].dependencies == block.map_values(
            |d: rows::Dependency| dep_full_model(s1, d),
        ));
        assert(block[j].target == g.versions@[i].dependencies@[j].package);
        assert(p.versions[i].dependencies[j] == dep_full_model(s1, block[j]));
    }
    assert forall|i: int| 0 <= i < nv implies (#[trigger] p.versions[i]).dependencies.len()
        == g.versions@[i].dependencies@.len() by {
        lemma_round_trip_children(s0, s1, g, i);
    }
    assert forall|i: int, t: int|
        0 <= i < nv && 0 <= t < g.versions@[i].contents@.len() implies {
        let cm = (#[trigger] p.versions[i]).contents[#[trigger] (t + 0)];
        &&& cm.path == g.versions@[i].contents@[t].path@
        &&& cm.node_type == g.versions@[i].contents@[t].node_type
    } by {
        lemma_round_trip_children(s0, s1, g, i);
        let block = content_rows_ver_upto(
            g.versions@[i],
            vid0 + i,
            cid0 + total_contents(g.versions@.take(i)),
            g.versions@[i].contents@.len() as int,
        );
        assert(p.versions[i].contents == crate::assemble::content_models(block));
        assert(block[t].path == g.versions@[i].contents@[t].path);
    }
    assert forall|i: int| 0 <= i < nv implies (#[trigger] p.versions[i]).contents.len()
        == g.versions@[i].contents@.len() by {
        lemma_round_trip_children(s0, s1, g, i);
    }
}

} // verus!
