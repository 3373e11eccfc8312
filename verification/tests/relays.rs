use kallip_tagma::lesche::{render_history, AttachmentRef, HistoryRow};
use kallip_tagma::profiles::Modality;
use kallip_tagma::relays::{DirectSessions, JoinedRooms};

#[test]
fn each_relay_owns_its_room_slice() {
    let mut rooms = JoinedRooms::new();
    rooms.set_joined_rooms(&"east".into(), vec!["r1".into(), "r2".into()]);
    rooms.set_joined_rooms(&"west".into(), vec!["r3".into(), "r2".into()]);
    assert!(rooms.is_joined(&"r1".into()));
    assert_eq!(rooms.owner_of(&"r3".into()).as_deref(), Some("west"));
    assert_eq!(rooms.owner_of(&"r1".into()).as_deref(), Some("east"));
    let mut all = rooms.joined_rooms();
    all.sort();
    assert_eq!(all, vec!["r1", "r2", "r3"]);
    // A fresh east poll replaces east's slice only.
    rooms.set_joined_rooms(&"east".into(), vec![]);
    assert!(!rooms.is_joined(&"r1".into()));
    assert!(rooms.is_joined(&"r3".into()));
    assert_eq!(rooms.owner_of(&"r2".into()).as_deref(), Some("west"));
    assert_eq!(rooms.owner_of(&"nope".into()), None);
}

#[test]
fn direct_sessions_route_by_relay() {
    let mut s = DirectSessions::new();
    assert!(!s.is_session(&"d1".into()));
    s.set_direct_sessions(&"east".into(), vec!["d1".into()]);
    assert!(s.is_session(&"d1".into()));
    assert_eq!(s.owner_of(&"d1".into()).as_deref(), Some("east"));
}

#[test]
fn history_renders_bracketed_blocks() {
    let rows = vec![
        HistoryRow {
            seq: 7,
            sender_kind: "agent".into(),
            sender_id: "a1".into(),
            handle: "scout".into(),
            created_at: "2026-01-01T00:00:00Z".into(),
            text: "hello".into(),
            attachment: None,
        },
        HistoryRow {
            seq: 8,
            sender_kind: "user".into(),
            sender_id: "u1".into(),
            handle: String::new(),
            created_at: "t2".into(),
            text: "see this".into(),
            attachment: Some(AttachmentRef { modality: Some(Modality::Audio), record_id: "rec-9".into() }),
        },
    ];
    assert_eq!(
        render_history(&rows),
        "[seq=7 from=agent:a1 \"scout\" at=2026-01-01T00:00:00Z]\nhello\n\n[seq=8 from=user:u1 at=t2]\nsee this\n[audio rec-9]\n\n"
    );
    assert_eq!(render_history(&vec![]), "");
}
