use frozenbbs::board::{lister, NO_BOARDS};
use frozenbbs::commands::ReplyDestination;
use frozenbbs::dm::{recipient, Recipient};
use frozenbbs::server::{advertise, queued_message_lines, route, seen_timestamp, Route};

#[test]
fn recipients_are_node_ids_or_short_names() {
    assert_eq!(recipient("!ABCDEF12"), Recipient::NodeId("!abcdef12".to_string()));
    assert_eq!(recipient("abcdef12"), Recipient::NodeId("!abcdef12".to_string()));
    assert_eq!(recipient("bob"), Recipient::ShortName("bob".to_string()));
    assert_eq!(recipient("!bob"), Recipient::Invalid);
    assert_eq!(recipient("toolong"), Recipient::Invalid);
}

#[test]
fn replies_are_routed_by_destination() {
    assert_eq!(route(ReplyDestination::Sender, 7, 3), Route { channel: 0, to: Some(7) });
    assert_eq!(route(ReplyDestination::Broadcast, 7, 3), Route { channel: 3, to: None });
}

#[test]
fn queued_messages_name_sender_and_time() {
    assert_eq!(
        queued_message_lines("!00000001/ab:Alice", "2025-01-01T00:00:00", "hi"),
        vec!["Message from !00000001/ab:Alice at 2025-01-01T00:00:00:", "", "hi"]
    );
}

#[test]
fn seen_times_are_never_in_the_future() {
    assert_eq!(seen_timestamp(50, 100), 50);
    assert_eq!(seen_timestamp(150, 100), 100);
    assert_eq!(seen_timestamp(0, 100), 100);
    assert_eq!(seen_timestamp(-5, 100), 100);
}

#[test]
fn advertisements_go_to_everyone_with_a_notice_to_the_sender() {
    let r = advertise("Visit us", "BBS v1");
    assert_eq!(r.0.len(), 2);
    assert_eq!(r.0[0].destination, ReplyDestination::Broadcast);
    assert_eq!(r.0[0].out, vec!["Visit us", "", "BBS v1"]);
    assert_eq!(r.0[1].destination, ReplyDestination::Sender);
    assert_eq!(r.0[1].out, vec!["You have spammed the broadcast channel."]);
}

#[test]
fn board_list_marks_unread_and_current_boards() {
    let boards = vec![(1, "General".to_string()), (2, "Radio".to_string()), (3, "Sale".to_string())];
    let out = lister(&boards, &vec![false, true, false], Some(3));
    assert_eq!(
        out,
        vec![
            "Boards:",
            "",
            "General",
            "! Radio",
            "* Sale",
            "",
            "* You are here.",
            "! Board has unread messages."
        ]
    );
    let out = lister(&boards, &vec![true, false, false], None);
    assert_eq!(out, vec!["Boards:", "", "! General", "Radio", "Sale"]);
    assert_eq!(lister(&Vec::new(), &Vec::new(), Some(1)), vec![NO_BOARDS]);
}
