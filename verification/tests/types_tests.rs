use hel_core::domain::PaginationRq;
use hel_core::error::ParseError;
use hel_core::types::{DependencyType, Language, NodeType, UserGroup};

#[test]
fn user_group_round_trip() {
    assert_eq!(UserGroup::from_str("user"), Ok(UserGroup::User));
    assert_eq!(UserGroup::from_str("admin"), Ok(UserGroup::Admin));
    assert_eq!(UserGroup::from_str("banned"), Ok(UserGroup::Banned));
    assert_eq!(UserGroup::User.as_str(), "user");
    assert_eq!(UserGroup::Admin.as_str(), "admin");
    assert_eq!(UserGroup::Banned.as_str(), "banned");
}

#[test]
fn user_group_rejects_unknown() {
    assert_eq!(
        UserGroup::from_str("root"),
        Err(ParseError::UnknownGroup { group: "root".to_string() })
    );
}

#[test]
fn dependency_type_round_trip() {
    assert_eq!(DependencyType::from_str("build-require"), Ok(DependencyType::BuildRequire));
    assert_eq!(DependencyType::from_str("runtime-require"), Ok(DependencyType::RuntimeRequire));
    assert_eq!(DependencyType::from_str("optional"), Ok(DependencyType::Optional));
    assert_eq!(DependencyType::BuildRequire.as_str(), "build-require");
    assert_eq!(DependencyType::RuntimeRequire.as_str(), "runtime-require");
    assert_eq!(DependencyType::Optional.as_str(), "optional");
}

#[test]
fn dependency_type_rejects_unknown() {
    assert_eq!(
        DependencyType::from_str("suggested"),
        Err(ParseError::UnknownDependencyType { name: "suggested".to_string() })
    );
}

#[test]
fn node_type_accepts_abbreviations() {
    assert_eq!(NodeType::from_str("f"), Ok(NodeType::File));
    assert_eq!(NodeType::from_str("file"), Ok(NodeType::File));
    assert_eq!(NodeType::from_str("d"), Ok(NodeType::Directory));
    assert_eq!(NodeType::from_str("dir"), Ok(NodeType::Directory));
    assert_eq!(NodeType::from_str("directory"), Ok(NodeType::Directory));
    assert_eq!(NodeType::File.as_str(), "file");
    assert_eq!(NodeType::Directory.as_str(), "dir");
}

#[test]
fn node_type_rejects_unknown() {
    assert_eq!(
        NodeType::from_str("link"),
        Err(ParseError::UnknownNodeType { name: "link".to_string() })
    );
}

#[test]
fn language_accepts_abbreviations() {
    assert_eq!(Language::from_str("ru"), Ok(Language::Russian));
    assert_eq!(Language::from_str("rus"), Ok(Language::Russian));
    assert_eq!(Language::from_str("russian"), Ok(Language::Russian));
    assert_eq!(Language::from_str("en"), Ok(Language::English));
    assert_eq!(Language::from_str("eng"), Ok(Language::English));
    assert_eq!(Language::from_str("english"), Ok(Language::English));
    assert_eq!(Language::Russian.as_str(), "ru");
    assert_eq!(Language::English.as_str(), "en");
}

#[test]
fn language_rejects_unknown() {
    assert_eq!(
        Language::from_str("de"),
        Err(ParseError::UnknownLanguage { language: "de".to_string() })
    );
}

#[test]
fn pagination_validate_clamps() {
    let p = PaginationRq { page: 0, limit: 0 }.validate(50);
    assert_eq!(p, PaginationRq { page: 1, limit: 1 });
    let p = PaginationRq { page: 3, limit: 100 }.validate(50);
    assert_eq!(p, PaginationRq { page: 3, limit: 50 });
    let p = PaginationRq { page: 2, limit: 20 }.validate(50);
    assert_eq!(p, PaginationRq { page: 2, limit: 20 });
}
