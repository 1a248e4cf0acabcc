use xirtam::client::convo::{
    classify_group_entry, dm_peer, group_recipient_matches, is_direct_message, plan_group_tasks,
    rekey_admin_count, rekey_sender_allowed, GroupEntryKind,
};
use xirtam::client::roster::{
    status_as_str, status_from_str, GroupMemberStatus, GroupRoster, RosterError, RosterMember,
};
use xirtam::structs::event::Recipient;
use xirtam::structs::group::{GroupId, GroupManageMsg};
use xirtam::structs::username::UserName;

fn user(s: &str) -> UserName {
    UserName::parse(s).expect("valid username")
}

fn member(name: &str, is_admin: bool, status: GroupMemberStatus) -> RosterMember {
    RosterMember {
        username: user(name),
        is_admin,
        status,
    }
}

fn fresh_roster() -> GroupRoster {
    GroupRoster::load(GroupId::from_bytes([1u8; 32]), user("@admin"), Vec::new(), 0)
        .expect("roster")
}

fn state(roster: &GroupRoster, name: &str) -> Option<(bool, GroupMemberStatus)> {
    roster.get(&user(name)).map(|m| (m.is_admin, m.status))
}

#[test]
fn fresh_roster_has_its_admin() {
    let roster = fresh_roster();
    assert_eq!(roster.version(), 1);
    assert_eq!(state(&roster, "@admin"), Some((true, GroupMemberStatus::Accepted)));
    assert_eq!(roster.list().len(), 1);
}

#[test]
fn duplicate_members_are_refused() {
    let members = vec![
        member("@alice", false, GroupMemberStatus::Pending),
        member("@alice", true, GroupMemberStatus::Accepted),
    ];
    let r = GroupRoster::load(GroupId::from_bytes([1u8; 32]), user("@admin"), members, 3);
    assert_eq!(r.err(), Some(RosterError::DuplicateMember));
}

#[test]
fn invite_then_accept() {
    let mut roster = fresh_roster();
    let changed = roster
        .apply_manage_message(&user("@admin"), GroupManageMsg::InviteSent(user("@bobby")))
        .expect("apply");
    assert!(changed);
    assert_eq!(roster.version(), 2);
    assert_eq!(state(&roster, "@bobby"), Some((false, GroupMemberStatus::Pending)));
    let again = roster
        .apply_manage_message(&user("@admin"), GroupManageMsg::InviteSent(user("@bobby")))
        .expect("apply");
    assert!(!again);
    assert_eq!(roster.version(), 2);
    assert!(roster
        .apply_manage_message(&user("@bobby"), GroupManageMsg::InviteAccepted)
        .expect("apply"));
    assert_eq!(state(&roster, "@bobby"), Some((false, GroupMemberStatus::Accepted)));
}

#[test]
fn strangers_cannot_invite() {
    let mut roster = fresh_roster();
    let changed = roster
        .apply_manage_message(&user("@mallory"), GroupManageMsg::InviteSent(user("@bobby")))
        .expect("apply");
    assert!(!changed);
    assert_eq!(state(&roster, "@bobby"), None);
}

#[test]
fn only_admins_ban_and_banned_stay_out() {
    let mut roster = fresh_roster();
    roster
        .apply_manage_message(&user("@admin"), GroupManageMsg::InviteSent(user("@bobby")))
        .unwrap();
    roster
        .apply_manage_message(&user("@bobby"), GroupManageMsg::InviteAccepted)
        .unwrap();
    assert!(!roster
        .apply_manage_message(&user("@bobby"), GroupManageMsg::Ban(user("@admin")))
        .unwrap());
    assert!(roster
        .apply_manage_message(&user("@admin"), GroupManageMsg::Ban(user("@bobby")))
        .unwrap());
    assert_eq!(state(&roster, "@bobby"), Some((false, GroupMemberStatus::Banned)));
    assert!(!roster
        .apply_manage_message(&user("@bobby"), GroupManageMsg::InviteAccepted)
        .unwrap());
    assert!(!roster
        .apply_manage_message(&user("@bobby"), GroupManageMsg::Leave)
        .unwrap());
    assert!(!roster
        .apply_manage_message(&user("@admin"), GroupManageMsg::InviteSent(user("@bobby")))
        .unwrap());
    assert!(roster
        .apply_manage_message(&user("@admin"), GroupManageMsg::Unban(user("@bobby")))
        .unwrap());
    assert_eq!(state(&roster, "@bobby"), Some((false, GroupMemberStatus::Pending)));
}

#[test]
fn admins_promote_and_members_leave() {
    let mut roster = fresh_roster();
    roster
        .apply_manage_message(&user("@admin"), GroupManageMsg::InviteSent(user("@carol")))
        .unwrap();
    assert!(roster
        .apply_manage_message(&user("@admin"), GroupManageMsg::AddAdmin(user("@carol")))
        .unwrap());
    assert_eq!(state(&roster, "@carol"), Some((true, GroupMemberStatus::Pending)));
    assert!(roster
        .apply_manage_message(&user("@carol"), GroupManageMsg::RemoveAdmin(user("@admin")))
        .unwrap());
    assert_eq!(state(&roster, "@admin"), Some((false, GroupMemberStatus::Accepted)));
    assert!(roster
        .apply_manage_message(&user("@admin"), GroupManageMsg::Leave)
        .unwrap());
    assert_eq!(state(&roster, "@admin"), None);
}

#[test]
fn status_names() {
    assert_eq!(status_as_str(&GroupMemberStatus::Pending), "pending");
    assert_eq!(status_as_str(&GroupMemberStatus::Accepted), "accepted");
    assert_eq!(status_as_str(&GroupMemberStatus::Banned), "banned");
    assert_eq!(status_from_str("accepted"), Some(GroupMemberStatus::Accepted));
    assert_eq!(status_from_str("Accepted"), None);
}

#[test]
fn rekey_is_for_active_admins() {
    let members = vec![
        member("@admin", true, GroupMemberStatus::Accepted),
        member("@carol", true, GroupMemberStatus::Pending),
        member("@dave_", true, GroupMemberStatus::Banned),
        member("@erin_", false, GroupMemberStatus::Accepted),
    ];
    assert_eq!(rekey_admin_count(&members, &user("@admin")), Some(2));
    assert_eq!(rekey_admin_count(&members, &user("@carol")), Some(2));
    assert_eq!(rekey_admin_count(&members, &user("@dave_")), None);
    assert_eq!(rekey_admin_count(&members, &user("@erin_")), None);
    assert!(rekey_sender_allowed(&Some(member("@admin", true, GroupMemberStatus::Accepted))));
    assert!(!rekey_sender_allowed(&Some(member("@dave_", true, GroupMemberStatus::Banned))));
    assert!(!rekey_sender_allowed(&None));
}

#[test]
fn direct_message_routing() {
    let me = user("@myself");
    let bob = user("@bobby");
    let eve = user("@evelyn");
    assert_eq!(
        dm_peer(&bob, &Recipient::User(me.clone()), &me).map(|p| p.as_str().to_string()),
        Some("@bobby".to_string())
    );
    assert_eq!(
        dm_peer(&me, &Recipient::User(bob.clone()), &me).map(|p| p.as_str().to_string()),
        Some("@bobby".to_string())
    );
    assert!(dm_peer(&bob, &Recipient::User(eve.clone()), &me).is_none());
    assert!(dm_peer(&bob, &Recipient::Group(GroupId::from_bytes([0u8; 32])), &me).is_none());
}

#[test]
fn group_entries_and_recipients() {
    assert_eq!(classify_group_entry("v1.group_rekey"), GroupEntryKind::Rekey);
    assert_eq!(classify_group_entry("v1.group_message"), GroupEntryKind::Message);
    assert_eq!(classify_group_entry("v1.direct_message"), GroupEntryKind::Other);
    assert!(is_direct_message("v1.direct_message"));
    assert!(!is_direct_message("v1.group_message"));
    let g = GroupId::from_bytes([3u8; 32]);
    assert!(group_recipient_matches(&Recipient::Group(g), &g));
    assert!(!group_recipient_matches(
        &Recipient::Group(GroupId::from_bytes([4u8; 32])),
        &g
    ));
    assert!(!group_recipient_matches(&Recipient::User(user("@bobby")), &g));
}

#[test]
fn group_tasks_are_reconciled() {
    let g = |b: u8| GroupId::from_bytes([b; 32]);
    let running = vec![(g(1), false), (g(2), true), (g(3), false)];
    let live = vec![g(1), g(2), g(4), g(4)];
    let plan = plan_group_tasks(&running, &live);
    assert_eq!(plan.keep, vec![0]);
    assert_eq!(plan.abort, vec![2]);
    assert_eq!(plan.start, vec![1, 2]);
}

#[test]
fn roster_lists_by_username() {
    let members = vec![
        member("@zelda", false, GroupMemberStatus::Accepted),
        member("@alice", true, GroupMemberStatus::Pending),
        member("@mike_", false, GroupMemberStatus::Banned),
        member("@Alice", false, GroupMemberStatus::Accepted),
    ];
    let roster =
        GroupRoster::load(GroupId::from_bytes([1u8; 32]), user("@admin"), members, 4).unwrap();
    let names: Vec<String> = roster
        .list()
        .iter()
        .map(|m| m.username.as_str().to_string())
        .collect();
    assert_eq!(names, vec!["@Alice", "@alice", "@mike_", "@zelda"]);
}
