use hel_core::assemble::get_package;
use hel_core::domain::{ContentNode, Localized};
use hel_core::error::DbError;
use hel_core::rows::NewUser;
use hel_core::store::Store;
use hel_core::types::{DependencyType, Language, NodeType, UserGroup};
use hel_core::rows::{Dependency, DependencyDescription, Package, Version};
use hel_core::{dependency, package, user, version};

fn dep(target: &str, spec: &str, kind: DependencyType) -> dependency::Full {
    dependency::Full {
        package: target.to_string(),
        spec_str: spec.to_string(),
        dep_type: kind,
        description: None,
    }
}

fn ver(
    name: &str,
    deps: Vec<dependency::Full>,
    contents: Vec<ContentNode>,
    changes: Vec<Localized>,
    readme: Vec<Localized>,
) -> version::Full {
    version::Full {
        version: name.to_string(),
        changes,
        readme,
        url: String::new(),
        dependencies: deps,
        contents,
        created: 0,
    }
}

fn pkg(name: &str, versions: Vec<version::Full>) -> package::Full {
    package::Full {
        name: name.to_string(),
        description: vec![],
        website: "https://example.test".to_string(),
        license: "MIT".to_string(),
        authors: vec!["someone".to_string()],
        maintainers: vec![],
        versions,
        downloads: 0,
        likes: 0,
        created: 0,
        updated: 0,
    }
}

fn file(path: &str) -> ContentNode {
    ContentNode { node_type: NodeType::File, path: path.to_string() }
}

fn text(lang: Language, s: &str) -> Localized {
    Localized { language: lang, text: s.to_string() }
}

#[test]
fn publish_then_read_back_keeps_versions_apart() {
    // two versions, each with one dependency and one content node: reading
    // the package back yields the versions in batch order, each with
    // exactly its own children
    let mut s = Store::new();
    let g = pkg(
        "alpha",
        vec![
            ver(
                "1.0.0",
                vec![dep("libfoo", "^1", DependencyType::BuildRequire)],
                vec![file("src/one.c")],
                vec![],
                vec![],
            ),
            ver(
                "2.0.0",
                vec![dep("libbar", "^2", DependencyType::RuntimeRequire)],
                vec![file("src/two.c")],
                vec![],
                vec![],
            ),
        ],
    );
    assert_eq!(s.publish_package(g), Ok(()));

    let p = get_package(&s, &"alpha".to_string()).unwrap();
    assert_eq!(p.name, "alpha");
    assert_eq!(p.website, "https://example.test");
    assert_eq!(p.license, "MIT");
    assert_eq!(p.authors, vec!["someone".to_string()]);
    assert_eq!(p.downloads, 0);
    assert_eq!(p.likes, 0);
    assert_eq!(p.versions.len(), 2);
    assert_eq!(p.versions[0].version, "1.0.0");
    assert_eq!(p.versions[1].version, "2.0.0");
    assert_eq!(p.versions[0].dependencies.len(), 1);
    assert_eq!(p.versions[0].dependencies[0].package, "libfoo");
    assert_eq!(p.versions[0].dependencies[0].spec_str, "^1");
    assert_eq!(p.versions[0].dependencies[0].dep_type, DependencyType::BuildRequire);
    assert_eq!(p.versions[0].dependencies[0].description, None);
    assert_eq!(p.versions[1].dependencies.len(), 1);
    assert_eq!(p.versions[1].dependencies[0].package, "libbar");
    assert_eq!(p.versions[0].contents, vec![file("src/one.c")]);
    assert_eq!(p.versions[1].contents, vec![file("src/two.c")]);
}

#[test]
fn publish_splits_texts_and_attaches_optional_descriptions() {
    let mut s = Store::new();
    let mut d = dep("libopt", "^3", DependencyType::Optional);
    d.description = Some(vec![text(Language::English, "an optional helper")]);
    let g = pkg(
        "beta",
        vec![ver(
            "0.1.0",
            vec![d],
            vec![],
            vec![text(Language::English, "first release"), text(Language::Russian, "summary")],
            vec![text(Language::English, "readme body")],
        )],
    );
    assert_eq!(s.publish_package(g), Ok(()));
    let p = get_package(&s, &"beta".to_string()).unwrap();
    assert_eq!(p.versions.len(), 1);
    let v = &p.versions[0];
    // one text row per readme language, pairing readme with its changelog
    assert_eq!(v.readme, vec![text(Language::English, "readme body")]);
    assert_eq!(v.changes, vec![text(Language::English, "first release")]);
    assert_eq!(
        v.dependencies[0].description,
        Some(vec![text(Language::English, "an optional helper")])
    );
}

#[test]
fn publish_duplicate_name_is_conflict() {
    let mut s = Store::new();
    assert_eq!(s.publish_package(pkg("gamma", vec![])), Ok(()));
    assert_eq!(s.publish_package(pkg("gamma", vec![])), Err(DbError::Conflict));
    assert_eq!(s.packages.len(), 1);
}

#[test]
fn publish_readme_without_changelog_fails_and_leaves_nothing() {
    let mut s = Store::new();
    let g = pkg(
        "delta",
        vec![ver(
            "1.0.0",
            vec![dep("libfoo", "^1", DependencyType::BuildRequire)],
            vec![file("src/lib.rs")],
            vec![text(Language::Russian, "summary")],
            vec![text(Language::English, "readme body")],
        )],
    );
    assert_eq!(s.publish_package(g), Err(DbError::ValidationFailure));
    // full rollback: no package, version, dependency or content row exists
    assert_eq!(s.packages.len(), 0);
    assert_eq!(s.versions.len(), 0);
    assert_eq!(s.dependencies.len(), 0);
    assert_eq!(s.contents.len(), 0);
    assert_eq!(s.version_texts.len(), 0);
    assert_eq!(get_package(&s, &"delta".to_string()), Err(DbError::NotFound));
}

#[test]
fn publish_unknown_maintainer_fails_and_leaves_nothing() {
    let mut s = Store::new();
    s.create_user(NewUser {
        username: "carol".to_string(),
        password: vec![],
        salt: vec![],
        group: UserGroup::Admin,
    })
    .unwrap();
    let mut g = pkg("epsilon", vec![ver("1.0.0", vec![], vec![], vec![], vec![])]);
    g.maintainers = vec![user::Short { username: "ghost".to_string() }];
    assert_eq!(s.publish_package(g), Err(DbError::ValidationFailure));
    assert_eq!(s.packages.len(), 0);
    assert_eq!(s.versions.len(), 0);
    assert_eq!(s.maintainers.len(), 0);
    assert_eq!(s.descriptions.len(), 0);
}

#[test]
fn publish_resolves_maintainers_case_insensitively() {
    let mut s = Store::new();
    let id = s
        .create_user(NewUser {
            username: "Carol".to_string(),
            password: vec![],
            salt: vec![],
            group: UserGroup::User,
        })
        .unwrap();
    let mut g = pkg("zeta", vec![]);
    g.maintainers = vec![user::Short { username: "cAROL".to_string() }];
    assert_eq!(s.publish_package(g), Ok(()));
    assert_eq!(s.maintainers.len(), 1);
    assert_eq!(s.maintainers[0].user, id);
    let p = get_package(&s, &"zeta".to_string()).unwrap();
    assert_eq!(p.maintainers, vec![user::Short { username: "Carol".to_string() }]);
}

#[test]
fn publish_duplicate_version_strings_is_store_error() {
    let mut s = Store::new();
    let g = pkg(
        "eta",
        vec![
            ver("1.0.0", vec![], vec![], vec![], vec![]),
            ver("1.0.0", vec![], vec![], vec![], vec![]),
        ],
    );
    assert_eq!(s.publish_package(g), Err(DbError::StoreError));
    assert_eq!(s.packages.len(), 0);
}

#[test]
fn publish_duplicate_description_language_is_store_error() {
    let mut s = Store::new();
    let mut g = pkg("theta", vec![]);
    g.description =
        vec![text(Language::English, "one"), text(Language::English, "two")];
    assert_eq!(s.publish_package(g), Err(DbError::StoreError));
    assert_eq!(s.packages.len(), 0);
}

#[test]
fn assembler_never_attaches_descriptions_to_required_dependencies() {
    // even with a description row planted in storage for a build-require
    // dependency, the assembled object keeps the collection absent
    let s = Store {
        users: vec![],
        packages: vec![Package {
            name: "iota".to_string(),
            website: String::new(),
            license: String::new(),
            authors: vec![],
            downloads: 0,
            created: 5,
            updated: 5,
        }],
        likes: vec![],
        versions: vec![Version {
            id: 0,
            package: "iota".to_string(),
            version: "1.0.0".to_string(),
            created: 5,
        }],
        dependencies: vec![Dependency {
            id: 0,
            package: "iota".to_string(),
            version: 0,
            target: "libfoo".to_string(),
            spec_str: "^1".to_string(),
            dep_type: DependencyType::BuildRequire,
        }],
        contents: vec![],
        maintainers: vec![],
        descriptions: vec![],
        version_texts: vec![],
        dependency_descriptions: vec![DependencyDescription {
            dependency: 0,
            language: Language::English,
            description: "planted".to_string(),
        }],
        next_user_id: 0,
        next_version_id: 1,
        next_dependency_id: 1,
        next_content_id: 0,
        clock: 10,
    };
    let p = get_package(&s, &"iota".to_string()).unwrap();
    assert_eq!(p.versions[0].dependencies[0].dep_type, DependencyType::BuildRequire);
    assert_eq!(p.versions[0].dependencies[0].description, None);
}

#[test]
fn publish_pairs_readme_with_last_matching_changelog() {
    // with two changelog entries in one language, the later one is the one
    // a readme of that language is paired with
    let mut s = Store::new();
    let g = pkg(
        "kappa",
        vec![ver(
            "1.0.0",
            vec![],
            vec![],
            vec![text(Language::English, "draft"), text(Language::English, "final wording")],
            vec![text(Language::English, "readme body")],
        )],
    );
    assert_eq!(s.publish_package(g), Ok(()));
    let p = get_package(&s, &"kappa".to_string()).unwrap();
    assert_eq!(p.versions[0].changes, vec![text(Language::English, "final wording")]);
}

#[test]
fn publish_stores_package_descriptions() {
    let mut s = Store::new();
    let mut g = pkg("lambda", vec![]);
    g.description =
        vec![text(Language::English, "a tool"), text(Language::Russian, "summary")];
    assert_eq!(s.publish_package(g), Ok(()));
    let p = get_package(&s, &"lambda".to_string()).unwrap();
    assert_eq!(
        p.description,
        vec![text(Language::English, "a tool"), text(Language::Russian, "summary")]
    );
}

#[test]
fn get_package_absent_is_not_found() {
    let s = Store::new();
    assert_eq!(get_package(&s, &"nonexistent".to_string()), Err(DbError::NotFound));
}
