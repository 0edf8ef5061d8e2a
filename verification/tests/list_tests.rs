use hel_core::assemble::{get_package, list_packages};
use hel_core::error::DbError;
use hel_core::store::Store;
use hel_core::{dependency, package, version};
use hel_core::rows::{Like, Maintainer};

fn simple_pkg(name: &str) -> package::Full {
    package::Full {
        name: name.to_string(),
        description: vec![],
        website: String::new(),
        license: String::new(),
        authors: vec![],
        maintainers: vec![],
        versions: vec![version::Full {
            version: "1.0.0".to_string(),
            changes: vec![],
            readme: vec![],
            url: String::new(),
            dependencies: vec![],
            contents: vec![],
            created: 0,
        }],
        downloads: 0,
        likes: 0,
        created: 0,
        updated: 0,
    }
}

#[test]
fn pages_are_disjoint_and_cover_the_most_recent() {
    let mut s = Store::new();
    for i in 0..25 {
        s.publish_package(simple_pkg(&format!("pkg{:02}", i))).unwrap();
    }
    let page1 = list_packages(&s, 1, 10).unwrap();
    let page2 = list_packages(&s, 2, 10).unwrap();
    assert_eq!(page1.len(), 10);
    assert_eq!(page2.len(), 10);
    // most recently created first: pkg24 down to pkg15, then pkg14..pkg05
    for (k, p) in page1.iter().enumerate() {
        assert_eq!(p.name, format!("pkg{:02}", 24 - k));
    }
    for (k, p) in page2.iter().enumerate() {
        assert_eq!(p.name, format!("pkg{:02}", 14 - k));
    }
    // no name occurs in both pages
    for a in &page1 {
        assert!(page2.iter().all(|b| b.name != a.name));
    }
}

#[test]
fn listing_shows_short_versions_with_dependencies() {
    let mut s = Store::new();
    let mut g = simple_pkg("withdeps");
    g.versions[0].dependencies = vec![dependency::Full {
        package: "libfoo".to_string(),
        spec_str: "^1".to_string(),
        dep_type: hel_core::types::DependencyType::RuntimeRequire,
        description: None,
    }];
    s.publish_package(g).unwrap();
    let page = list_packages(&s, 1, 10).unwrap();
    assert_eq!(page.len(), 1);
    assert_eq!(page[0].versions.len(), 1);
    assert_eq!(page[0].versions[0].version, "1.0.0");
    assert_eq!(page[0].versions[0].dependencies.len(), 1);
    assert_eq!(page[0].versions[0].dependencies[0].package, "libfoo");
    assert_eq!(page[0].versions[0].dependencies[0].spec_str, "^1");
}

#[test]
fn listing_counts_likes_and_defaults_to_zero() {
    let mut s = Store::new();
    s.publish_package(simple_pkg("loved")).unwrap();
    s.publish_package(simple_pkg("ignored")).unwrap();
    s.likes.push(Like { user: 1, package: "loved".to_string(), time: 3 });
    s.likes.push(Like { user: 2, package: "loved".to_string(), time: 4 });
    let page = list_packages(&s, 1, 10).unwrap();
    assert_eq!(page.len(), 2);
    assert_eq!(page[0].name, "ignored");
    assert_eq!(page[0].likes, 0);
    assert_eq!(page[1].name, "loved");
    assert_eq!(page[1].likes, 2);
    // the full read counts the same way
    let p = get_package(&s, &"loved".to_string()).unwrap();
    assert_eq!(p.likes, 2);
}

#[test]
fn listing_reports_dangling_maintainer_as_internal() {
    let mut s = Store::new();
    s.publish_package(simple_pkg("broken")).unwrap();
    s.maintainers.push(Maintainer { user: 99, package: "broken".to_string() });
    assert_eq!(list_packages(&s, 1, 10), Err(DbError::InternalConsistency));
    // the single read uses an inner join and silently drops the link
    let p = get_package(&s, &"broken".to_string()).unwrap();
    assert_eq!(p.maintainers.len(), 0);
}

#[test]
fn listing_beyond_the_catalogue_is_empty() {
    let mut s = Store::new();
    s.publish_package(simple_pkg("only")).unwrap();
    let page = list_packages(&s, 5, 10).unwrap();
    assert_eq!(page.len(), 0);
}
