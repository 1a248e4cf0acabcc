use xirtam::client::convo::{parse_convo_id, ConvoId};
use xirtam::structs::group::GroupId;
use xirtam::structs::username::UserName;

#[test]
fn direct_convo_id_round_trip() {
    let id = ConvoId::Direct {
        peer: UserName::parse("@alice_01").unwrap(),
    };
    assert_eq!(id.convo_type(), "direct");
    assert_eq!(id.counterparty(), "@alice_01");
    let parsed = parse_convo_id(id.convo_type(), &id.counterparty()).unwrap();
    assert!(parsed == id);
}

#[test]
fn group_convo_id_round_trip() {
    let id = ConvoId::Group {
        group_id: GroupId::from_bytes([7u8; 32]),
    };
    assert_eq!(id.convo_type(), "group");
    assert_eq!(id.counterparty(), "BwcHBwcHBwcHBwcHBwcHBwcHBwcHBwcHBwcHBwcHBwc");
    let parsed = parse_convo_id("group", &id.counterparty()).unwrap();
    assert!(parsed == id);
}

#[test]
fn group_id_text_form_round_trip() {
    let mut bytes = [0u8; 32];
    for (i, b) in bytes.iter_mut().enumerate() {
        *b = (i * 9) as u8;
    }
    let id = GroupId::from_bytes(bytes);
    let text = id.to_string();
    assert_eq!(GroupId::from_str(&text).unwrap().as_bytes(), bytes);
    assert!(GroupId::from_str("not base64!").is_err());
    assert!(GroupId::from_str("AAAA").is_err());
}

#[test]
fn convo_id_rejects_bad_input() {
    assert!(parse_convo_id("direct", "alice").is_none());
    assert!(parse_convo_id("group", "@alice_01").is_none());
    assert!(parse_convo_id("channel", "@alice_01").is_none());
    assert!(parse_convo_id("Direct", "@alice_01").is_none());
    let direct = ConvoId::Direct {
        peer: UserName::parse("@alice_01").unwrap(),
    };
    let group = ConvoId::Group {
        group_id: GroupId::from_bytes([0u8; 32]),
    };
    assert!(direct != group);
}

#[test]
fn convo_key_joins_kind_and_counterparty() {
    let direct = ConvoId::Direct {
        peer: UserName::parse("@bob_the_builder").unwrap(),
    };
    assert_eq!(xirtam::display::convo_key(&direct), "direct:@bob_the_builder");
    let group = ConvoId::Group {
        group_id: GroupId::from_bytes([7u8; 32]),
    };
    assert_eq!(
        xirtam::display::convo_key(&group),
        "group:BwcHBwcHBwcHBwcHBwcHBwcHBwcHBwcHBwcHBwcHBwc"
    );
}
