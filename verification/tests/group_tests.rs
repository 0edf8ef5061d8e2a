use hel_core::error::DbError;
use hel_core::group::{group_by_id, group_by_name};

#[test]
fn grouping_partitions_children_by_parent() {
    // parents 10, 20, 30; children tagged with their parent key
    let children: Vec<&str> = vec!["a", "b", "c", "d", "e"];
    let child_keys: Vec<i32> = vec![20, 10, 20, 30, 10];
    let parent_keys: Vec<i32> = vec![10, 20, 30];
    let groups = group_by_id(children, &child_keys, &parent_keys).unwrap();
    // one group per parent, index-aligned, original relative order kept,
    // and every child lands in exactly one group
    assert_eq!(groups.len(), 3);
    assert_eq!(groups[0], vec!["b", "e"]);
    assert_eq!(groups[1], vec!["a", "c"]);
    assert_eq!(groups[2], vec!["d"]);
    assert_eq!(groups.iter().map(|g| g.len()).sum::<usize>(), 5);
}

#[test]
fn grouping_gives_childless_parents_empty_groups() {
    let children: Vec<u8> = vec![7];
    let child_keys: Vec<i32> = vec![2];
    let parent_keys: Vec<i32> = vec![1, 2, 3];
    let groups = group_by_id(children, &child_keys, &parent_keys).unwrap();
    assert_eq!(groups, vec![vec![], vec![7u8], vec![]]);
}

#[test]
fn grouping_rejects_orphan_children() {
    let children: Vec<u8> = vec![7];
    let child_keys: Vec<i32> = vec![99];
    let parent_keys: Vec<i32> = vec![1, 2];
    assert_eq!(group_by_id(children, &child_keys, &parent_keys), Err(DbError::InternalConsistency));
}

#[test]
fn grouping_by_name_compares_characters() {
    let children: Vec<u8> = vec![1, 2, 3];
    let child_keys: Vec<String> = vec!["beta".into(), "alpha".into(), "beta".into()];
    let parent_keys: Vec<String> = vec!["alpha".into(), "beta".into()];
    let groups = group_by_name(children, &child_keys, &parent_keys).unwrap();
    assert_eq!(groups, vec![vec![2u8], vec![1u8, 3u8]]);
}
