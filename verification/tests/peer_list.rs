use xirtam::client::peer_list::{open_peer, PeerInputError, PeerList};

fn names(list: &PeerList) -> Vec<String> {
    (0..list.len()).map(|i| list.get(i).to_string()).collect()
}

#[test]
fn open_peer_keeps_list_sorted_and_unique() {
    let mut peers = PeerList::new();
    assert_eq!(open_peer("@zed_user", &mut peers), Ok("@zed_user".to_string()));
    assert_eq!(open_peer("@alice_01", &mut peers), Ok("@alice_01".to_string()));
    assert_eq!(open_peer("@mike_22", &mut peers), Ok("@mike_22".to_string()));
    assert_eq!(open_peer("@alice_01", &mut peers), Ok("@alice_01".to_string()));
    assert_eq!(names(&peers), vec!["@alice_01", "@mike_22", "@zed_user"]);
    assert_eq!(open_peer("alice", &mut peers), Err(PeerInputError::InvalidHandle));
    assert_eq!(open_peer("@ab", &mut peers), Err(PeerInputError::InvalidHandle));
    assert_eq!(peers.len(), 3);
}

#[test]
fn peer_list_insert_reports_new_names() {
    let mut peers = PeerList::new();
    assert!(peers.insert("@bob_the_builder"));
    assert!(!peers.insert("@bob_the_builder"));
    assert!(peers.insert("@Bob_upper"));
    assert_eq!(names(&peers), vec!["@Bob_upper", "@bob_the_builder"]);
}
