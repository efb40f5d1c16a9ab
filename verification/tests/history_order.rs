use quickclipboard_core::history_records::StoredHistoryRow;
use quickclipboard_core::item_order::{
    move_clipboard_item_by_id, move_clipboard_item_to_top, move_in_list, next_item_order, reorder_updates,
    toggle_pin_clipboard_item, ItemSlot,
};

fn stored(slots: &[ItemSlot]) -> Vec<StoredHistoryRow> {
    slots
        .iter()
        .map(|s| StoredHistoryRow {
            id: s.id,
            uuid: None,
            source_device_id: None,
            is_remote: false,
            content: String::new(),
            html_content: None,
            content_type: "text".to_string(),
            image_id: None,
            item_order: s.item_order,
            is_pinned: s.is_pinned,
            paste_count: 0,
            source_app: None,
            source_icon_hash: None,
            char_count: None,
            created_at: 0,
            updated_at: 0,
        })
        .collect()
}

fn slot(id: i64, is_pinned: bool, item_order: i64) -> ItemSlot {
    ItemSlot { id, is_pinned, item_order }
}

fn apply_pin(slots: &mut Vec<ItemSlot>, id: i64, change: (bool, i64)) {
    for s in slots.iter_mut() {
        if s.id == id {
            s.is_pinned = change.0;
            s.item_order = change.1;
        }
    }
}

fn order_of(slots: &[ItemSlot], id: i64) -> (i64, i64) {
    let s = slots.iter().find(|s| s.id == id).unwrap();
    (s.is_pinned as i64, s.item_order)
}

#[test]
fn toggle_pin_moves_between_buckets_with_max_plus_one() {
    let id_a = 1;
    let id_b = 2;
    let mut slots = vec![slot(id_a, false, 1), slot(id_b, false, 2)];

    let change = toggle_pin_clipboard_item(&slots, id_b).unwrap();
    assert_eq!(change.0, true);
    apply_pin(&mut slots, id_b, change);
    assert_eq!(order_of(&slots, id_b), (1, 1), "置顶桶 max=0 -> item_order=1");

    let change = toggle_pin_clipboard_item(&slots, id_a).unwrap();
    assert_eq!(change.0, true);
    apply_pin(&mut slots, id_a, change);
    assert_eq!(order_of(&slots, id_a).1, 2);

    let change = toggle_pin_clipboard_item(&slots, id_a).unwrap();
    assert_eq!(change.0, false);
    apply_pin(&mut slots, id_a, change);
    assert_eq!(order_of(&slots, id_a), (0, 1));

    assert_eq!(
        toggle_pin_clipboard_item(&slots, 99999).unwrap_err(),
        "数据库操作失败: Query returned no rows"
    );
}

#[test]
fn cross_bucket_move_is_noop_and_move_to_top_bumps_order() {
    let id_a = 1;
    let id_b = 2;
    let mut slots = vec![slot(id_a, false, 1), slot(id_b, false, 2)];
    let change = toggle_pin_clipboard_item(&slots, id_b).expect("置顶应成功");
    assert!(change.0);
    apply_pin(&mut slots, id_b, change);

    let moves = move_clipboard_item_by_id(&stored(&slots), id_b, id_a).expect("跨桶移动应 Ok");
    assert!(moves.is_empty());
    assert_eq!(order_of(&slots, id_a), (0, 1), "未置顶项未被重排");
    assert_eq!(order_of(&slots, id_b), (1, 1), "置顶项未被重排");

    let change = toggle_pin_clipboard_item(&slots, id_b).expect("取消置顶应成功");
    assert!(!change.0, "返回 false = 已取消");
    apply_pin(&mut slots, id_b, change);
    assert_eq!(order_of(&slots, id_b).1, 2, "未置顶桶 max(1)+1 = 2");

    let order = move_clipboard_item_to_top(&slots, id_a).expect("移到顶部应成功");
    apply_pin(&mut slots, id_a, (false, order));
    assert_eq!(order_of(&slots, id_a).1, 3, "move to top = max(unpinned)+1 = 3");
}

#[test]
fn moving_within_a_bucket_shifts_the_items_in_between() {
    let (a, b, c, d) = (1, 2, 3, 4);
    let listed = vec![(d, 4), (c, 3), (b, 2), (a, 1)];
    let rows = stored(&[slot(a, false, 1), slot(b, false, 2), slot(c, false, 3), slot(d, false, 4)]);
    let moves = move_clipboard_item_by_id(&rows, c, a).unwrap();
    assert_eq!(moves, vec![(b, 3), (a, 2), (c, 1)]);
    let moves = move_clipboard_item_by_id(&rows, a, c).unwrap();
    assert_eq!(moves, vec![(c, 2), (b, 1), (a, 3)]);
    assert!(move_clipboard_item_by_id(&rows, c, c).unwrap().is_empty());
    assert_eq!(move_clipboard_item_by_id(&rows, 9, a).unwrap_err(), "数据库操作失败: Query returned no rows");
    assert_eq!(move_clipboard_item_by_id(&rows, a, -3).unwrap_err(), "数据库操作失败: Query returned no rows");
    assert_eq!(move_in_list(&listed, c, a, false, false).unwrap(), vec![(b, 3), (a, 2), (c, 1)]);
    assert_eq!(
        move_in_list(&listed, 9, a, false, false).unwrap_err(),
        "数据库操作失败: Invalid parameter name: ID 9 不存在"
    );
    assert_eq!(
        move_in_list(&listed, a, -3, false, false).unwrap_err(),
        "数据库操作失败: Invalid parameter name: ID -3 不存在"
    );
    assert_eq!(reorder_updates(&listed, 2, 2), vec![]);
}

#[test]
fn pinned_items_are_not_raised_and_missing_ones_neither() {
    let slots = vec![slot(1, true, 5), slot(2, false, -4), slot(3, false, -7)];
    assert_eq!(move_clipboard_item_to_top(&slots, 1), None);
    assert_eq!(move_clipboard_item_to_top(&slots, 9), None);
    assert_eq!(move_clipboard_item_to_top(&slots, 3), Some(-3));
    assert_eq!(toggle_pin_clipboard_item(&slots, 2).unwrap(), (true, 6));
    assert_eq!(toggle_pin_clipboard_item(&slots, 1).unwrap(), (false, -3));
}

#[test]
fn new_and_refreshed_items_go_to_the_top_of_their_bucket() {
    let mut slots = vec![slot(100, true, 5)];
    assert_eq!(next_item_order(&slots, false, None), 1, "未置顶桶为空 → 新记录 order=1");
    slots.push(slot(1, false, 1));
    let change = toggle_pin_clipboard_item(&slots, 1).unwrap();
    assert_eq!(change, (true, 6));
    apply_pin(&mut slots, 1, change);
    assert_eq!(next_item_order(&slots, false, None), 1);
    slots.push(slot(2, false, 1));
    assert_eq!(next_item_order(&slots, false, None), 2);

    let slots = vec![slot(1, false, 1), slot(2, false, 2)];
    assert_eq!(next_item_order(&slots, false, Some(1)), 3);
    assert_eq!(next_item_order(&slots, false, Some(2)), 2);
    assert_eq!(next_item_order(&[slot(1, false, 7)], false, Some(1)), 1);
}
