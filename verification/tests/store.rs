use gelbooru::store::{group_tags, migration_version, records_completion, should_run_migration, FavoriteTag};

fn tag(id: i64, name: &str, parent: Option<i64>) -> FavoriteTag {
    FavoriteTag { id, tag: name.to_string(), tag_type: "general".to_string(), parent_id: parent }
}

#[test]
fn tags_group_under_parents_in_order() {
    let tags = vec![tag(1, "a", None), tag(2, "a1", Some(1)), tag(3, "b", None), tag(4, "a2", Some(1)), tag(5, "orphan", Some(9))];
    let groups = group_tags(&tags);
    assert_eq!(groups.len(), 2);
    assert_eq!(groups[0].parent.tag, "a");
    let kids: Vec<&str> = groups[0].children.iter().map(|t| t.tag.as_str()).collect();
    assert_eq!(kids, vec!["a1", "a2"]);
    assert!(groups[1].children.is_empty());
}

#[test]
fn migrations_by_version() {
    assert_eq!(migration_version("001_init"), 1);
    assert_eq!(migration_version("abc_x"), 0);
    assert!(!should_run_migration(1, "001_init", ""));
    assert!(should_run_migration(1, "002_more", "CREATE TABLE t (x)"));
    assert!(!should_run_migration(2, "002_more", "CREATE TABLE t (x)"));
    assert!(records_completion("completed"));
    assert!(!records_completion("downloading"));
}
