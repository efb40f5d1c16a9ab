use quickclipboard_core::groups::{
    add_group, add_group_at, delete_group, delete_group_at, get_all_groups, reorder_groups, reorder_groups_at, update_group,
    update_group_at,
};
use quickclipboard_core::merge::ExistingGroupRow;
use quickclipboard_core::tombstone_store::TombstoneStore;
use quickclipboard_core::table::Table;
use quickclipboard_core::tombstones::{tombstone_state_key, COLLECTION_GROUPS};

fn seed_favorite(favorites: &mut Table<String>, id: &str, group: &str) {
    favorites.insert(id.to_string(), group.to_string());
}

fn favorite_group(favorites: &Table<String>, id: &str) -> String {
    favorites.get(id).unwrap().clone()
}

fn tombstone_deleted_at(tombstones: &TombstoneStore, collection: &str, item_id: &str) -> Option<i64> {
    tombstones.tombstone_deleted_at(collection, item_id)
}

#[test]
fn delete_group_all_is_protected() {
    let mut groups: Table<ExistingGroupRow> = Table::new();
    let mut favorites: Table<String> = Table::new();
    let mut tombstones = TombstoneStore::new();
    seed_favorite(&mut favorites, "f1", "全部");
    let err = delete_group(&mut groups, &mut favorites, &mut tombstones, "dev-local", "全部").unwrap_err();
    assert!(err.contains("不能删除"), "应报错: {}", err);
    assert!(tombstone_deleted_at(&tombstones, COLLECTION_GROUPS, "全部").is_none());
    assert_eq!(favorite_group(&favorites, "f1"), "全部", "收藏不得被移动");
}

#[test]
fn delete_group_reassigns_favorites_and_records_tombstone() {
    let mut groups: Table<ExistingGroupRow> = Table::new();
    let mut favorites: Table<String> = Table::new();
    let mut tombstones = TombstoneStore::new();
    add_group(&mut groups, "work".into(), "ti ti-folder", "#dc2626").unwrap();
    seed_favorite(&mut favorites, "f1", "work");
    seed_favorite(&mut favorites, "f2", "全部");

    delete_group(&mut groups, &mut favorites, &mut tombstones, "dev-local", "work").unwrap();

    assert!(tombstone_deleted_at(&tombstones, COLLECTION_GROUPS, "work").is_some());
    assert!(groups.get("work").is_none());
    assert_eq!(favorite_group(&favorites, "f1"), "全部", "收藏应改回 '全部'");

    delete_group(&mut groups, &mut favorites, &mut tombstones, "dev-local", "ghost").unwrap();
    assert!(tombstone_deleted_at(&tombstones, COLLECTION_GROUPS, "ghost").is_none());
}

#[test]
fn update_group_rename_cascades_and_rejects_duplicates() {
    let mut groups: Table<ExistingGroupRow> = Table::new();
    let mut favorites: Table<String> = Table::new();
    add_group(&mut groups, "work".into(), "ti ti-folder", "#dc2626").unwrap();
    add_group(&mut groups, "other".into(), "ti ti-folder", "#dc2626").unwrap();
    seed_favorite(&mut favorites, "f1", "work");

    let g = update_group(&mut groups, &mut favorites, "work", "dev".into(), "ti ti-star", "#00ff00").unwrap();
    assert_eq!(g.name, "dev");
    assert_eq!(g.icon, "ti ti-star");
    assert_eq!(g.color, "#00ff00");
    assert_eq!(favorite_group(&favorites, "f1"), "dev", "重命名必须级联收藏");
    assert_eq!(g.item_count, 1);

    let err = update_group(&mut groups, &mut favorites, "dev", "other".into(), "", "").unwrap_err();
    assert!(err.contains("已存在"), "应报错: {}", err);
    assert_eq!(favorite_group(&favorites, "f1"), "dev");

    let g = update_group(&mut groups, &mut favorites, "dev", "dev".into(), "", "").unwrap();
    assert_eq!(g.name, "dev");
}

#[test]
fn add_group_normalizes_and_reorders() {
    let mut groups: Table<ExistingGroupRow> = Table::new();
    let mut favorites: Table<String> = Table::new();
    let g1 = add_group(&mut groups, "g1".into(), "", "0").unwrap();
    assert_eq!(g1.icon, "ti ti-folder", "空图标回退默认");
    assert_eq!(g1.color, "#dc2626", "空/0 颜色回退默认");
    assert_eq!(g1.order, 1);
    assert_eq!(g1.item_count, 0);
    let g2 = add_group(&mut groups, "g2".into(), " ti ti-star ", "#FF0000").unwrap();
    assert_eq!(g2.icon, "ti ti-star");
    assert_eq!(g2.color, "#ff0000", "颜色转小写");
    assert_eq!(g2.order, 2);

    let err = add_group(&mut groups, "g1".into(), "", "").unwrap_err();
    assert!(err.contains("已存在"));

    seed_favorite(&mut favorites, "f1", "g2");
    let all = get_all_groups(&groups, &favorites);
    assert_eq!(all.len(), 2);
    assert_eq!(all[0].name, "g1");
    assert_eq!(all[1].name, "g2");
    assert_eq!(all[1].item_count, 1);

    reorder_groups(&mut groups, &[("g2".into(), 0), ("g1".into(), 1)]);
    let all = get_all_groups(&groups, &favorites);
    assert_eq!(all[0].name, "g2");
    assert_eq!(all[0].order, 0);
    assert_eq!(all[1].name, "g1");
    assert_eq!(all[1].order, 1);
}

#[test]
fn default_group_cannot_be_deleted() {
    let mut groups: Table<ExistingGroupRow> = Table::new();
    let mut favorites: Table<String> = Table::new();
    let mut tombstones = TombstoneStore::new();
    seed_favorite(&mut favorites, "f1", "全部");
    let err = delete_group(&mut groups, &mut favorites, &mut tombstones, "dev-local", "全部").expect_err("删除'全部'必须报错");
    assert!(err.contains("不能删除"), "实际错误: {}", err);
    assert_eq!(tombstones.len(), 0, "不写墓碑");
    assert_eq!(favorite_group(&favorites, "f1"), "全部", "收藏未被移动");
}

#[test]
fn delete_group_records_tombstone_and_reassigns_favorites() {
    let mut groups: Table<ExistingGroupRow> = Table::new();
    let mut favorites: Table<String> = Table::new();
    let mut tombstones = TombstoneStore::new();
    add_group(&mut groups, "work".to_string(), "ti ti-folder", "#dc2626").expect("添加分组");
    seed_favorite(&mut favorites, "f1", "work");
    seed_favorite(&mut favorites, "f2", "work");

    delete_group(&mut groups, &mut favorites, &mut tombstones, "dev-local", "work").expect("删除应成功");

    assert!(groups.get("work").is_none(), "分组行删除");
    let fav_groups = format!("{},{}", favorite_group(&favorites, "f1"), favorite_group(&favorites, "f2"));
    assert_eq!(fav_groups, "全部,全部", "收藏迁移到'全部'");
    assert_eq!(tombstones.len(), 1);
    assert!(tombstones.get(&tombstone_state_key("groups", "work")).is_some());
}

#[test]
fn delete_nonexistent_group_reassigns_without_tombstone() {
    let mut groups: Table<ExistingGroupRow> = Table::new();
    let mut favorites: Table<String> = Table::new();
    let mut tombstones = TombstoneStore::new();
    seed_favorite(&mut favorites, "f1", "ghost");

    delete_group(&mut groups, &mut favorites, &mut tombstones, "dev-local", "ghost").expect("删除不存在分组应 Ok");

    assert_eq!(favorite_group(&favorites, "f1"), "全部", "收藏仍被迁移");
    assert_eq!(tombstones.len(), 0, "分组不存在 → 不写墓碑");
}

#[test]
fn group_edits_at_given_times() {
    let mut groups: Table<ExistingGroupRow> = Table::new();
    let mut favorites: Table<String> = Table::new();
    let mut tombstones = TombstoneStore::new();
    add_group_at(&mut groups, "a".into(), "", "", 100).unwrap();
    add_group_at(&mut groups, "b".into(), "", "#123", 100).unwrap();
    assert_eq!(groups.get("a").unwrap().created_at, 100);
    assert_eq!(groups.get("b").unwrap().color, "#112233");
    assert_eq!(groups.get("b").unwrap().order, 2);

    seed_favorite(&mut favorites, "f1", "a");
    seed_favorite(&mut favorites, "f2", "b");
    let info = update_group_at(&mut groups, &mut favorites, "a", "b".into(), "", "", 200);
    assert!(info.unwrap_err().contains("已存在"));
    let info = update_group_at(&mut groups, &mut favorites, "a", "c".into(), "x", "#ABCDEF", 200).unwrap();
    assert_eq!(info.order, 1);
    assert_eq!(info.color, "#abcdef");
    assert_eq!(info.item_count, 1);
    let row = groups.get("c").unwrap();
    assert_eq!(row.updated_at, 200);
    assert_eq!(row.created_at, 100);
    assert!(groups.get("a").is_none());

    let missing = update_group_at(&mut groups, &mut favorites, "zz", "zz".into(), "", "", 300);
    assert!(missing.is_err());

    reorder_groups_at(&mut groups, &[("c".into(), 9), ("nope".into(), 1), ("c".into(), 5)], 400);
    assert_eq!(groups.get("c").unwrap().order, 5);
    assert_eq!(groups.get("c").unwrap().updated_at, 400);

    tombstones.record_sync_tombstone("groups", "b", "dev-other", 900);
    delete_group_at(&mut groups, &mut favorites, &mut tombstones, "dev-local", "b", 500).unwrap();
    assert_eq!(tombstones.get(&tombstone_state_key("groups", "b")), Some(900));
    assert_eq!(favorite_group(&favorites, "f2"), "全部");
    delete_group_at(&mut groups, &mut favorites, &mut tombstones, "dev-local", "c", 600).unwrap();
    assert_eq!(tombstones.get(&tombstone_state_key("groups", "c")), Some(600));
    let kept = tombstones.tombstone("groups", "c").unwrap();
    assert_eq!(kept.source_device_id, "dev-local");
    assert_eq!(kept.created_at, 600);
    assert_eq!(tombstones.tombstone("groups", "b").unwrap().source_device_id, "dev-other");
    assert_eq!(favorite_group(&favorites, "f1"), "全部");
    assert_eq!(groups.len(), 0);
}
