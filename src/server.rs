//! What the radio service sends where.

use vstd::prelude::*;

use crate::commands::{Replies, Reply, ReplyDestination};
use crate::text::{concat, string_views};

verus! {

/// Where a reply goes: a channel, and a node, or every node where `to` is `None`.
#[derive(Debug, Clone, Copy, PartialEq, Eq, Structural)]
pub struct Route {
    pub channel: u32,
    pub to: Option<u32>,
}

/// Route a reply: to the sender on channel 0, or to everyone on the public
/// channel.
pub fn route(destination: ReplyDestination, sender: u32, public_channel: u32) -> (r: Route)
    ensures
        destination == ReplyDestination::Sender ==> r == (Route { channel: 0, to: Some(sender) }),
        destination == ReplyDestination::Broadcast ==> r == (Route { channel: public_channel, to: None }),
{
    match destination {
        ReplyDestination::Sender => Route { channel: 0, to: Some(sender) },
        ReplyDestination::Broadcast => Route { channel: public_channel, to: None },
    }
}

/// The lines that deliver a queued direct message.
pub fn queued_message_lines(sender: &str, at: &str, body: &str) -> (r: Vec<String>)
    ensures
        string_views(r@) == seq![
            "Message from "@ + sender@ + " at "@ + at@ + ":"@,
            Seq::<char>::empty(),
            body@,
        ],
{
    let a = concat("Message from ", sender);
    let b = concat(a.as_str(), " at ");
    let c = concat(b.as_str(), at);
    let r = vec![concat(c.as_str(), ":"), String::new(), body.to_owned()];
    assert(string_views(r@) =~= seq![
        "Message from "@ + sender@ + " at "@ + at@ + ":"@,
        Seq::<char>::empty(),
        body@,
    ]);
    r
}

/// When a user was last seen: the time their radio reported, unless it is in
/// the future or missing, in which case now.
pub fn seen_timestamp(reported_us: i64, now_us: i64) -> (r: i64)
    ensures
        r == (if reported_us > 0 && reported_us <= now_us { reported_us } else { now_us }),
{
    if reported_us > 0 && reported_us < now_us {
        reported_us
    } else {
        now_us
    }
}

/// The replies of an advertisement: the text and the system description to
/// the public channel, and a notice to the sender.
pub fn advertise(ad_text: &str, info: &str) -> (r: Replies)
    ensures
        r.0@.len() == 2,
        r.0@[0].destination == ReplyDestination::Broadcast,
        string_views(r.0@[0].out@) == seq![ad_text@, Seq::<char>::empty(), info@],
        r.0@[1].destination == ReplyDestination::Sender,
        string_views(r.0@[1].out@) == seq!["You have spammed the broadcast channel."@],
{
    let public = vec![ad_text.to_owned(), String::new(), info.to_owned()];
    let notice = vec!["You have spammed the broadcast channel.".to_owned()];
    assert(string_views(public@) =~= seq![ad_text@, Seq::<char>::empty(), info@]);
    assert(string_views(notice@) =~= seq!["You have spammed the broadcast channel."@]);
    Replies(
        vec![
            Reply { out: public, destination: ReplyDestination::Broadcast },
            Reply { out: notice, destination: ReplyDestination::Sender },
        ],
    )
}

} // verus!
