//! A named broadcast point.
//!
//! A group keeps a bounded buffer of the most recently posted messages and a
//! read cursor per subscription. Posting never waits for subscribers: when
//! the buffer is full the oldest retained message is dropped, and a
//! subscriber whose cursor falls behind the retained window is told how many
//! messages it lost, then continues with the oldest retained one. A
//! subscription whose delivery loop ends is retired with `leave`, which
//! frees its slot and touches nothing else.

use crate::bytes_clone;
use vstd::prelude::*;

verus! {

/// How many pending messages a group retains for its subscribers.
pub const GROUP_CAPACITY: usize = 1000;

/// Ghost model of a group: its name, the retained tail of the post history,
/// the total number of messages ever posted, and, per subscription, a read
/// position and whether the subscription is still live.
#[verifier::ext_equal]
pub struct GroupModel {
    pub name: Seq<u8>,
    pub buffer: Seq<Seq<u8>>,
    pub head: nat,
    pub cursors: Seq<nat>,
    pub active: Seq<bool>,
}

impl GroupModel {
    /// The buffer holds the last `GROUP_CAPACITY` posts (all of them while
    /// fewer have happened), and no cursor runs ahead of the history.
    pub open spec fn wf(self) -> bool {
        &&& self.buffer.len() == if self.head < GROUP_CAPACITY {
            self.head as int
        } else {
            GROUP_CAPACITY as int
        }
        &&& forall|i: int| 0 <= i < self.cursors.len() ==> self.cursors[i] <= self.head
        &&& self.active.len() == self.cursors.len()
    }

    /// The history position of the oldest retained message.
    pub open spec fn base(self) -> int {
        self.head - self.buffer.len()
    }
}

/// A newly created group: empty history, no subscriptions.
pub open spec fn group_new(name: Seq<u8>) -> GroupModel {
    GroupModel {
        name,
        buffer: Seq::empty(),
        head: 0,
        cursors: Seq::empty(),
        active: Seq::empty(),
    }
}

/// Publishing appends to the history, dropping the oldest retained message
/// once the buffer is full; cursors are untouched, so no subscriber — slow,
/// fast or absent — affects the publisher.
pub open spec fn group_post(g: GroupModel, m: Seq<u8>) -> GroupModel {
    GroupModel {
        buffer: if g.buffer.len() < GROUP_CAPACITY {
            g.buffer.push(m)
        } else {
            g.buffer.drop_first().push(m)
        },
        head: g.head + 1,
        ..g
    }
}

/// A new subscription starts at the current head: it observes only messages
/// posted after it was created.
pub open spec fn group_join(g: GroupModel) -> GroupModel {
    GroupModel { cursors: g.cursors.push(g.head), active: g.active.push(true), ..g }
}

/// Retiring a subscription marks its slot dead and touches nothing else:
/// the buffer, the history, every other subscription and even the retired
/// cursor's position are left as they were.
pub open spec fn group_leave(g: GroupModel, sub: int) -> GroupModel {
    GroupModel { active: g.active.update(sub, false), ..g }
}

/// Ghost model of what one receive on a subscription observes.
pub enum EventModel {
    Message(Seq<u8>),
    Lagged(nat),
    Empty,
}

/// What a receive on subscription `sub` observes: nothing pending, the next
/// retained message, or the count of messages lost to overflow.
pub open spec fn group_recv_event(g: GroupModel, sub: int) -> EventModel {
    let c = g.cursors[sub] as int;
    if c == g.head {
        EventModel::Empty
    } else if c >= g.base() {
        EventModel::Message(g.buffer[c - g.base()])
    } else {
        EventModel::Lagged((g.base() - c) as nat)
    }
}

/// How a receive advances subscription `sub`: past the delivered message, or
/// up to the oldest retained message after a lag report.
pub open spec fn group_recv_next(g: GroupModel, sub: int) -> GroupModel {
    let c = g.cursors[sub] as int;
    let c2 = if c == g.head {
        c
    } else if c >= g.base() {
        c + 1
    } else {
        g.base()
    };
    GroupModel { cursors: g.cursors.update(sub, c2 as nat), ..g }
}

/// What one receive on a subscription yields.
pub enum RecvEvent {
    Message(Vec<u8>),
    Lagged(u64),
    Empty,
}

impl View for RecvEvent {
    type V = EventModel;

    open spec fn view(&self) -> EventModel {
        match self {
            RecvEvent::Message(m) => EventModel::Message(m@),
            RecvEvent::Lagged(n) => EventModel::Lagged(*n as nat),
            RecvEvent::Empty => EventModel::Empty,
        }
    }
}

/// A broadcast point for one named topic.
pub struct Group {
    name: Vec<u8>,
    buffer: Vec<Vec<u8>>,
    head: u64,
    cursors: Vec<u64>,
    active: Vec<bool>,
}

impl View for Group {
    type V = GroupModel;

    closed spec fn view(&self) -> GroupModel {
        GroupModel {
            name: self.name@,
            buffer: Seq::new(self.buffer@.len(), |i: int| self.buffer@[i]@),
            head: self.head as nat,
            cursors: Seq::new(self.cursors@.len(), |i: int| self.cursors@[i] as nat),
            active: self.active@,
        }
    }
}

impl Group {
    pub fn new(name: Vec<u8>) -> (g: Group)
        ensures
            g@ == group_new(name@),
            g@.wf(),
    {
        let g = Group {
            name,
            buffer: Vec::new(),
            head: 0,
            cursors: Vec::new(),
            active: Vec::new(),
        };
        proof {
            assert(g@ =~~= group_new(g.name@));
        }
        g
    }

    /// The group's name.
    pub fn name(&self) -> (r: Vec<u8>)
        ensures
            r@ == self@.name,
    {
        bytes_clone(&self.name)
    }

    /// How many subscription slots this group has handed out, retired ones
    /// included: subscription identifiers are always below this bound.
    pub fn subscriber_count(&self) -> (r: usize)
        ensures
            r == self@.cursors.len(),
    {
        self.cursors.len()
    }

    /// How many messages have ever been posted to this group.
    pub fn total_posted(&self) -> (r: u64)
        ensures
            r == self@.head,
    {
        self.head
    }

    /// Publishes a message to the group. Never waits and never fails: with no
    /// subscribers the message simply ages out of the buffer, and a full
    /// buffer drops its oldest entry rather than holding the publisher up.
    pub fn post(&mut self, message: Vec<u8>)
        requires
            old(self)@.wf(),
            old(self)@.head < u64::MAX,
        ensures
            final(self)@ == group_post(old(self)@, message@),
            final(self)@.wf(),
    {
        if self.buffer.len() >= GROUP_CAPACITY {
            self.buffer.remove(0);
            self.buffer.push(message);
            proof {
                assert(self@.buffer =~= old(self)@.buffer.drop_first().push(
                    self.buffer@.last()@,
                ));
            }
        } else {
            self.buffer.push(message);
            proof {
                assert(self@.buffer =~= old(self)@.buffer.push(self.buffer@.last()@));
            }
        }
        self.head = self.head + 1;
        proof {
            assert(self@.cursors =~= old(self)@.cursors);
            assert(self@ =~~= group_post(old(self)@, message@));
        }
    }

    /// Creates a new subscription and returns its identifier. Subscriptions
    /// are independent: joining again adds another cursor, it never
    /// deduplicates or fails.
    pub fn join(&mut self) -> (sub: usize)
        requires
            old(self)@.wf(),
        ensures
            final(self)@ == group_join(old(self)@),
            final(self)@.wf(),
            sub == old(self)@.cursors.len(),
    {
        let sub = self.cursors.len();
        self.cursors.push(self.head);
        self.active.push(true);
        proof {
            assert(self@.buffer =~= old(self)@.buffer);
            assert(self@.cursors =~= old(self)@.cursors.push(old(self)@.head));
            assert(self@ =~~= group_join(old(self)@));
        }
        sub
    }

    /// Takes the next event for subscription `sub`: the next retained
    /// message in post order, a report of how many messages the subscription
    /// missed, or nothing when it has seen everything.
    pub fn recv(&mut self, sub: usize) -> (e: RecvEvent)
        requires
            old(self)@.wf(),
            sub < old(self)@.cursors.len(),
            old(self)@.active[sub as int],
        ensures
            final(self)@ == group_recv_next(old(self)@, sub as int),
            final(self)@.wf(),
            e@ == group_recv_event(old(self)@, sub as int),
    {
        let c = self.cursors[sub];
        if c == self.head {
            proof {
                assert(self@.cursors =~= old(self)@.cursors.update(
                    sub as int,
                    old(self)@.cursors[sub as int],
                ));
                assert(self@ =~~= group_recv_next(old(self)@, sub as int));
            }
            return RecvEvent::Empty;
        }
        let base = self.head - (self.buffer.len() as u64);
        if c >= base {
            let idx_wide = c - base;
            proof {
                assert(idx_wide < self.buffer.len() as u64);
            }
            let idx = idx_wide as usize;
            let m = bytes_clone(&self.buffer[idx]);
            self.cursors[sub] = c + 1;
            proof {
                assert(self@.buffer =~= old(self)@.buffer);
                assert(self@.cursors =~= old(self)@.cursors.update(sub as int, (c + 1) as nat));
                assert(self@ =~~= group_recv_next(old(self)@, sub as int));
            }
            RecvEvent::Message(m)
        } else {
            let n = base - c;
            self.cursors[sub] = base;
            proof {
                assert(self@.buffer =~= old(self)@.buffer);
                assert(self@.cursors =~= old(self)@.cursors.update(sub as int, base as nat));
                assert(self@ =~~= group_recv_next(old(self)@, sub as int));
            }
            RecvEvent::Lagged(n)
        }
    }
}

impl Group {
    /// Whether subscription `sub` is still live.
    pub fn is_active(&self, sub: usize) -> (r: bool)
        requires
            self@.wf(),
            sub < self@.cursors.len(),
        ensures
            r == self@.active[sub as int],
    {
        self.active[sub]
    }

    /// Retires subscription `sub`: its slot is marked dead and no further
    /// receive is permitted on it, while the buffer, the history and every
    /// other subscription stay exactly as they were.
    pub fn leave(&mut self, sub: usize)
        requires
            old(self)@.wf(),
            sub < old(self)@.cursors.len(),
        ensures
            final(self)@ == group_leave(old(self)@, sub as int),
            final(self)@.wf(),
    {
        self.active[sub] = false;
        proof {
            assert(self@.buffer =~= old(self)@.buffer);
            assert(self@.cursors =~= old(self)@.cursors);
            assert(self@.active =~= old(self)@.active.update(sub as int, false));
            assert(self@ =~~= group_leave(old(self)@, sub as int));
        }
    }
}

/// Posting to a group with no subscribers is an ordinary, silent publish: it
/// is defined for every such group, touches no cursor, and leaves nothing to
/// wait on — the message merely enters (and eventually leaves) the buffer.
pub proof fn law_post_without_subscribers(g: GroupModel, m: Seq<u8>)
    requires
        g.wf(),
        g.cursors.len() == 0,
    ensures
        group_post(g, m).wf(),
        group_post(g, m).cursors =~= g.cursors,
        group_post(g, m).head == g.head + 1,
{
}

/// Repeated joins create independent subscriptions: the two identifiers are
/// distinct and, after one further post, each of them receives that same
/// message — neither an error nor a deduplication.
pub proof fn law_repeated_join_independent(g: GroupModel, m: Seq<u8>)
    requires
        g.wf(),
    ensures
        ({
            let a = g.cursors.len() as int;
            let b = a + 1;
            let joined = group_join(group_join(g));
            let after = group_post(joined, m);
            &&& a != b
            &&& joined.cursors.len() == g.cursors.len() + 2
            &&& after.active[a] && after.active[b]
            &&& group_recv_event(after, a) == EventModel::Message(m)
            &&& group_recv_event(after, b) == EventModel::Message(m)
        }),
{
    let a = g.cursors.len() as int;
    let joined = group_join(group_join(g));
    let after = group_post(joined, m);
    assert(after.buffer.len() >= 1);
    assert(after.buffer.last() == m);
    assert(after.cursors[a] == g.head);
    assert(after.cursors[a + 1] == g.head);
    assert(after.base() == after.head - after.buffer.len());
    assert(g.head - after.base() == after.buffer.len() - 1);
}


/// For one subscriber, delivered messages preserve post order: when a
/// receive delivers the message at history position `c`, the immediately
/// following receive — if it delivers a message — delivers the one posted
/// right after it.
pub proof fn law_messages_in_post_order(g: GroupModel, sub: int)
    requires
        g.wf(),
        0 <= sub < g.cursors.len(),
        group_recv_event(g, sub) is Message,
        group_recv_event(group_recv_next(g, sub), sub) is Message,
    ensures
        ({
            let c = g.cursors[sub] as int;
            let g2 = group_recv_next(g, sub);
            &&& group_recv_event(g, sub) == EventModel::Message(g.buffer[c - g.base()])
            &&& group_recv_event(g2, sub) == EventModel::Message(g.buffer[c + 1 - g.base()])
        }),
{
}

/// A lag report never lies silent and never ends a subscription: it names
/// at least one lost message, and the very next receive delivers the oldest
/// message still retained, from which delivery resumes in order.
pub proof fn law_lag_reports_then_resumes(g: GroupModel, sub: int)
    requires
        g.wf(),
        0 <= sub < g.cursors.len(),
        group_recv_event(g, sub) is Lagged,
    ensures
        ({
            let g2 = group_recv_next(g, sub);
            &&& group_recv_event(g, sub) == EventModel::Lagged(
                (g.base() - g.cursors[sub]) as nat,
            )
            &&& g.base() - g.cursors[sub] >= 1
            &&& g.buffer.len() > 0
            &&& group_recv_event(g2, sub) == EventModel::Message(g.buffer[0])
        }),
{
    assert(g.cursors[sub] < g.base());
    assert(g.buffer.len() > 0);
}


/// Every subscription standing at the head of the history — as each freshly
/// joined one does, however many times the same client repeats its join —
/// receives the very next posted message. Together with `group_join`, which
/// appends one fresh live cursor at the head per join, this gives `k`
/// independent deliveries for `k` repeated joins.
pub proof fn law_new_subscription_receives_next_post(g: GroupModel, sub: int, m: Seq<u8>)
    requires
        g.wf(),
        0 <= sub < g.cursors.len(),
        g.cursors[sub] == g.head,
    ensures
        group_recv_event(group_post(g, m), sub) == EventModel::Message(m),
{
    let after = group_post(g, m);
    assert(after.buffer.len() >= 1);
    assert(after.buffer.last() == m);
    assert(g.head - after.base() == after.buffer.len() - 1);
}

/// Retiring one subscription is local: the group's name, history and buffer
/// are untouched, and what every other subscription would observe next is
/// exactly what it would have observed before.
pub proof fn law_leave_is_local(g: GroupModel, sub: int, other: int)
    requires
        g.wf(),
        0 <= sub < g.cursors.len(),
        0 <= other < g.cursors.len(),
        other != sub,
    ensures
        group_leave(g, sub).wf(),
        group_leave(g, sub).buffer == g.buffer,
        group_leave(g, sub).head == g.head,
        group_leave(g, sub).cursors == g.cursors,
        group_leave(g, sub).active[other] == g.active[other],
        group_recv_event(group_leave(g, sub), other) == group_recv_event(g, other),
{
}

} // verus!
