//! Per-connection dispatch: what one decoded client request does to the
//! shared registry, and what one subscription event becomes on the wire.
//!
//! The surrounding program runs the loops — reading frames, holding the
//! registry's lock across one dispatch, forwarding replies through the
//! connection's outbound endpoint — and every decision in between is made
//! here.

use crate::append_bytes;
use crate::group::{
    group_join, group_post, group_recv_event, group_recv_next, EventModel, Group, RecvEvent,
};
use crate::group_table::{table_get_or_create, table_has, GroupTable};
use crate::protocol::{ClientMsg, FromClient, FromServer, ServerMsg};
use vstd::prelude::*;

verus! {

/// The decimal digits of a number, most significant first.
pub open spec fn dec_digits(n: nat) -> Seq<u8>
    decreases n,
{
    if n < 10 {
        seq![(48 + n) as u8]
    } else {
        dec_digits(n / 10) + seq![(48 + (n % 10)) as u8]
    }
}

/// Renders a number in decimal.
pub fn u64_to_dec(n: u64) -> (r: Vec<u8>)
    ensures
        r@ == dec_digits(n as nat),
    decreases n,
{
    if n < 10 {
        let mut v: Vec<u8> = Vec::new();
        v.push(48 + (n as u8));
        proof {
            assert(v@ =~= dec_digits(n as nat));
        }
        v
    } else {
        assert(n / 10 < n);
        let mut v = u64_to_dec(n / 10);
        v.push(48 + ((n % 10) as u8));
        proof {
            assert(v@ =~= dec_digits((n / 10) as nat) + seq![(48 + (n as nat % 10)) as u8]);
        }
        v
    }
}

/// `Group doesn't exist ` as bytes.
pub open spec fn no_group_prefix() -> Seq<u8> {
    seq![
        71u8, 114, 111, 117, 112, 32, 100, 111, 101, 115, 110, 39, 116, 32, 101, 120, 105,
        115, 116, 32,
    ]
}

/// The error text reported for a post to a group nobody has created.
pub open spec fn no_group_text(name: Seq<u8>) -> Seq<u8> {
    no_group_prefix() + name
}

/// `Dropped ` as bytes.
pub open spec fn dropped_prefix() -> Seq<u8> {
    seq![68u8, 114, 111, 112, 112, 101, 100, 32]
}

/// ` messages from ` as bytes.
pub open spec fn messages_from_mid() -> Seq<u8> {
    seq![32u8, 109, 101, 115, 115, 97, 103, 101, 115, 32, 102, 114, 111, 109, 32]
}

/// The error text reported to a subscriber that lost `n` messages.
pub open spec fn lag_text(n: nat, name: Seq<u8>) -> Seq<u8> {
    dropped_prefix() + dec_digits(n) + messages_from_mid() + name
}

fn push_no_group_prefix(out: &mut Vec<u8>)
    ensures
        final(out)@ == old(out)@ + no_group_prefix(),
{
    out.push(71);
    out.push(114);
    out.push(111);
    out.push(117);
    out.push(112);
    out.push(32);
    out.push(100);
    out.push(111);
    out.push(101);
    out.push(115);
    out.push(110);
    out.push(39);
    out.push(116);
    out.push(32);
    out.push(101);
    out.push(120);
    out.push(105);
    out.push(115);
    out.push(116);
    out.push(32);
    proof {
        assert(out@ =~= old(out)@ + no_group_prefix());
    }
}

fn push_dropped_prefix(out: &mut Vec<u8>)
    ensures
        final(out)@ == old(out)@ + dropped_prefix(),
{
    out.push(68);
    out.push(114);
    out.push(111);
    out.push(112);
    out.push(112);
    out.push(101);
    out.push(100);
    out.push(32);
    proof {
        assert(out@ =~= old(out)@ + dropped_prefix());
    }
}

fn push_messages_from_mid(out: &mut Vec<u8>)
    ensures
        final(out)@ == old(out)@ + messages_from_mid(),
{
    out.push(32);
    out.push(109);
    out.push(101);
    out.push(115);
    out.push(115);
    out.push(97);
    out.push(103);
    out.push(101);
    out.push(115);
    out.push(32);
    out.push(102);
    out.push(114);
    out.push(111);
    out.push(109);
    out.push(32);
    proof {
        assert(out@ =~= old(out)@ + messages_from_mid());
    }
}

/// What dispatching one client request produced: a new subscription, a
/// completed post, or an error reply owed to this client alone.
pub enum HandleOutcome {
    Joined { group: usize, sub: usize },
    Posted { group: usize },
    Reply(FromServer),
}

/// Dispatches one decoded client request against the registry.
///
/// A join creates the group if needed and adds one subscription to it; it
/// always succeeds and owes no reply. A post delivers to the named group's
/// buffer when the group exists; when it does not, nothing changes and the
/// caller owes this client (and no one else) the error reply carried back.
pub fn handle_packet(table: &mut GroupTable, packet: FromClient) -> (r: HandleOutcome)
    requires
        old(table).wf(),
        forall|j: int| 0 <= j < old(table)@.len() ==> (#[trigger] old(table)@[j]).head
            < u64::MAX,
    ensures
        final(table).wf(),
        match packet@ {
            ClientMsg::Join { group_name } => {
                let t1 = table_get_or_create(old(table)@, group_name);
                match r {
                    HandleOutcome::Joined { group, sub } => {
                        &&& group < t1.len()
                        &&& t1[group as int].name == group_name
                        &&& final(table)@ == t1.update(
                            group as int,
                            group_join(t1[group as int]),
                        )
                        &&& sub == t1[group as int].cursors.len()
                    },
                    _ => false,
                }
            },
            ClientMsg::Post { group_name, message } => {
                if table_has(old(table)@, group_name) {
                    match r {
                        HandleOutcome::Posted { group } => {
                            &&& group < old(table)@.len()
                            &&& old(table)@[group as int].name == group_name
                            &&& final(table)@ == old(table)@.update(
                                group as int,
                                group_post(old(table)@[group as int], message),
                            )
                        },
                        _ => false,
                    }
                } else {
                    &&& final(table)@ == old(table)@
                    &&& r matches HandleOutcome::Reply(e) && e@ == ServerMsg::Error(
                        no_group_text(group_name),
                    )
                }
            },
        },
{
    match packet {
        FromClient::Join { group_name } => {
            let group = table.add_and_get(group_name);
            let sub = table.join_at(group);
            HandleOutcome::Joined { group, sub }
        }
        FromClient::Post { group_name, message } => {
            match table.get(&group_name) {
                Some(group) => {
                    table.post_at(group, message);
                    HandleOutcome::Posted { group }
                }
                None => {
                    let mut text: Vec<u8> = Vec::new();
                    push_no_group_prefix(&mut text);
                    append_bytes(&mut text, &group_name);
                    HandleOutcome::Reply(FromServer::Error(text))
                }
            }
        }
    }
}

/// Runs one step of a subscription's delivery loop: takes the next event
/// for `sub` and renders it as the notification owed to the subscriber, or
/// `None` when nothing is pending and the caller should wait.
///
/// A delivered message carries the group's name and the payload, in post
/// order; a lag is reported to this one subscriber as an error naming the
/// loss count, after which delivery resumes with the oldest retained
/// message.
pub fn subscription_step(group: &mut Group, sub: usize) -> (r: Option<FromServer>)
    requires
        old(group)@.wf(),
        sub < old(group)@.cursors.len(),
        old(group)@.active[sub as int],
    ensures
        final(group)@ == group_recv_next(old(group)@, sub as int),
        final(group)@.wf(),
        match group_recv_event(old(group)@, sub as int) {
            EventModel::Empty => r is None,
            EventModel::Message(m) => r matches Some(p) && p@ == ServerMsg::Message {
                group_name: old(group)@.name,
                message: m,
            },
            EventModel::Lagged(n) => r matches Some(p) && p@ == ServerMsg::Error(
                lag_text(n, old(group)@.name),
            ),
        },
{
    let event = group.recv(sub);
    let name = group.name();
    render_event(event, name)
}

/// Renders one subscription event as the notification owed to the
/// subscriber of the group named `name`, or `None` for an empty event.
pub fn render_event(event: RecvEvent, name: Vec<u8>) -> (r: Option<FromServer>)
    ensures
        match event@ {
            EventModel::Empty => r is None,
            EventModel::Message(m) => r matches Some(p) && p@ == ServerMsg::Message {
                group_name: name@,
                message: m,
            },
            EventModel::Lagged(n) => r matches Some(p) && p@ == ServerMsg::Error(
                lag_text(n, name@),
            ),
        },
{
    match event {
        RecvEvent::Empty => None,
        RecvEvent::Message(m) => Some(FromServer::Message { group_name: name, message: m }),
        RecvEvent::Lagged(n) => {
            let mut text: Vec<u8> = Vec::new();
            push_dropped_prefix(&mut text);
            let digits = u64_to_dec(n);
            append_bytes(&mut text, &digits);
            push_messages_from_mid(&mut text);
            append_bytes(&mut text, &name);
            proof {
                assert(text@ =~= lag_text(n as nat, name@));
            }
            Some(FromServer::Error(text))
        }
    }
}

/// `subscription_step` against the group at index `group` of the shared
/// registry: one step of that subscription's delivery loop.
pub fn subscription_step_at(table: &mut GroupTable, group: usize, sub: usize) -> (r: Option<
    FromServer,
>)
    requires
        old(table).wf(),
        group < old(table)@.len(),
        sub < old(table)@[group as int].cursors.len(),
        old(table)@[group as int].active[sub as int],
    ensures
        final(table).wf(),
        final(table)@ == old(table)@.update(
            group as int,
            group_recv_next(old(table)@[group as int], sub as int),
        ),
        match group_recv_event(old(table)@[group as int], sub as int) {
            EventModel::Empty => r is None,
            EventModel::Message(m) => r matches Some(p) && p@ == ServerMsg::Message {
                group_name: old(table)@[group as int].name,
                message: m,
            },
            EventModel::Lagged(n) => r matches Some(p) && p@ == ServerMsg::Error(
                lag_text(n, old(table)@[group as int].name),
            ),
        },
{
    let event = table.recv_at(group, sub);
    let name = table.name_at(group);
    render_event(event, name)
}

} // verus!
