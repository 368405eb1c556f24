use weecord::directory::{Directory, MemberInfo, RoleInfo};
use weecord::members::{nick_entry, ListOp, ListUpdate, MemberList};
use weecord::style::ColorTable;

fn update(id: &str, ops: Vec<ListOp<u32>>) -> ListUpdate<u32> {
    ListUpdate { id: id.to_string(), ops }
}

#[test]
fn list_operations() {
    let mut lists: MemberList<u32> = MemberList::new();
    assert!(lists.get("everyone").is_none());
    lists.apply_update(update("everyone", vec![ListOp::Sync { start: 0, items: vec![1, 2, 3] }]));
    assert_eq!(lists.get("everyone"), Some(&vec![1, 2, 3]));
    lists.apply_update(update(
        "everyone",
        vec![
            ListOp::Sync { start: 2, items: vec![30, 40] },
            ListOp::Update { index: 0, item: 10 },
            ListOp::Insert { index: 1, item: 15 },
            ListOp::Delete { index: 2 },
            ListOp::Invalidate { start: 0, end: 0 },
        ],
    ));
    assert_eq!(lists.get("everyone"), Some(&vec![15, 30, 40]));
}

#[test]
fn lists_are_kept_apart() {
    let mut lists: MemberList<u32> = MemberList::new();
    lists.apply_update(update("a", vec![ListOp::Sync { start: 0, items: vec![1] }]));
    lists.apply_update(update("b", vec![ListOp::Insert { index: 0, item: 9 }]));
    assert_eq!(lists.get("a"), Some(&vec![1]));
    assert_eq!(lists.get("b"), Some(&vec![9]));
    lists.apply_update(update("c", vec![]));
    assert_eq!(lists.get("c"), Some(&vec![]));
}

#[test]
fn nick_list_entries() {
    let mut dir = Directory::new();
    dir.roles.push(RoleInfo { id: 1, name: "admins".to_string(), color: 0x0000ff, position: 5 });
    dir.roles.push(RoleInfo { id: 2, name: "plain".to_string(), color: 0, position: 1 });
    let admin = MemberInfo {
        guild_id: 1,
        user_id: 2,
        user_name: "root".to_string(),
        nick: Some("boss".to_string()),
        roles: vec![2, 1],
    };
    let (name, group) = nick_entry(&ColorTable::identity(), &dir, &admin);
    assert_eq!(name, "21bossreset");
    assert_eq!(group, Some(("admins".to_string(), "21".to_string())));

    let nobody = MemberInfo { guild_id: 1, user_id: 3, user_name: "anon".to_string(), nick: None, roles: vec![] };
    let (name, group) = nick_entry(&ColorTable::identity(), &dir, &nobody);
    assert_eq!(name, "0anonreset");
    assert_eq!(group, None);
}

#[test]
fn unknown_members_bookkeeping() {
    let mut unknown = vec![1, 2, 1, 3];
    weecord::members::drop_ignored(&mut unknown, &vec![1, 3, 7]);
    assert_eq!(unknown, vec![2, 1]);
    let many: Vec<u64> = (0..150).collect();
    assert_eq!(weecord::members::member_request_ids(&many), (0..100).collect::<Vec<u64>>());
    assert_eq!(weecord::members::member_request_ids(&vec![4]), vec![4]);
}

#[test]
fn updates_compose() {
    let mut one: MemberList<u32> = MemberList::new();
    one.apply_update(update("l", vec![ListOp::Insert { index: 0, item: 1 }, ListOp::Insert { index: 1, item: 2 }]));
    let mut two: MemberList<u32> = MemberList::new();
    two.apply_update(update("l", vec![ListOp::Insert { index: 0, item: 1 }]));
    two.apply_update(update("l", vec![ListOp::Insert { index: 1, item: 2 }]));
    assert_eq!(one.get("l"), two.get("l"));
}

#[test]
fn updates_are_checked_before_applying() {
    let mut lists: MemberList<u32> = MemberList::new();
    assert!(lists.update_is_valid(&update("l", vec![ListOp::Insert { index: 0, item: 1 }])));
    assert!(!lists.update_is_valid(&update("l", vec![ListOp::Delete { index: 0 }])));
    assert!(!lists.update_is_valid(&update("l", vec![ListOp::Unknown])));
    assert!(lists.update_is_valid(&update(
        "l",
        vec![ListOp::Sync { start: 5, items: vec![1, 2] }, ListOp::Update { index: 1, item: 3 }]
    )));
    assert!(!lists.update_is_valid(&update(
        "l",
        vec![ListOp::Sync { start: 5, items: vec![1, 2] }, ListOp::Invalidate { start: 2, end: 2 }]
    )));
    lists.apply_update(update("l", vec![ListOp::Sync { start: 0, items: vec![1, 2, 3] }]));
    assert!(lists.update_is_valid(&update("l", vec![ListOp::Sync { start: 1, items: vec![9, 9, 9] }, ListOp::Delete { index: 3 }])));
    assert!(!lists.update_is_valid(&update("l", vec![ListOp::Sync { start: 1, items: vec![9] }, ListOp::Delete { index: 3 }])));
}

#[test]
fn invalidate_removes_a_range() {
    let mut lists: MemberList<u32> = MemberList::new();
    lists.apply_update(update("l", vec![ListOp::Sync { start: 0, items: vec![1, 2, 3, 4] }]));
    assert!(lists.update_is_valid(&update("l", vec![ListOp::Invalidate { start: 1, end: 2 }])));
    assert!(lists.update_is_valid(&update("l", vec![ListOp::Invalidate { start: 2, end: 1 }])));
    assert!(!lists.update_is_valid(&update("l", vec![ListOp::Invalidate { start: 3, end: 1 }])));
    assert!(!lists.update_is_valid(&update("l", vec![ListOp::Invalidate { start: 1, end: 4 }])));
    lists.apply_update(update("l", vec![ListOp::Invalidate { start: 1, end: 2 }]));
    assert_eq!(lists.get("l"), Some(&vec![1, 4]));
    lists.apply_update(update("l", vec![ListOp::Invalidate { start: 1, end: 0 }]));
    assert_eq!(lists.get("l"), Some(&vec![1, 4]));
}
