//! The registry of groups: a mapping from group name to group, created
//! lazily and never removed. The surrounding program guards the one table
//! with a single lock; under that serialization the contracts here give
//! exactly-once creation per name.

use crate::bytes_eq;
use crate::group::{group_join, group_leave, group_new, group_post, group_recv_event, group_recv_next, Group, GroupModel, RecvEvent};
use vstd::prelude::*;

verus! {

/// Every group is well formed and no two groups share a name.
pub open spec fn table_wf(t: Seq<GroupModel>) -> bool {
    &&& forall|i: int| 0 <= i < t.len() ==> (#[trigger] t[i]).wf()
    &&& forall|i: int, j: int| 0 <= i < t.len() && 0 <= j < t.len() && i != j ==> t[i].name
        != t[j].name
}

/// A name is present in the table.
pub open spec fn table_has(t: Seq<GroupModel>, name: Seq<u8>) -> bool {
    exists|j: int| 0 <= j < t.len() && (#[trigger] t[j]).name == name
}

/// The table after a get-or-create: unchanged when the name is present, and
/// extended by exactly one fresh group otherwise.
pub open spec fn table_get_or_create(t: Seq<GroupModel>, name: Seq<u8>) -> Seq<GroupModel> {
    if table_has(t, name) {
        t
    } else {
        t.push(group_new(name))
    }
}

/// The registry of all groups this process has ever seen.
pub struct GroupTable {
    groups: Vec<Group>,
}

impl View for GroupTable {
    type V = Seq<GroupModel>;

    closed spec fn view(&self) -> Seq<GroupModel> {
        Seq::new(self.groups@.len(), |i: int| self.groups@[i]@)
    }
}

impl GroupTable {
    pub open spec fn wf(&self) -> bool {
        table_wf(self@)
    }

    pub fn new() -> (t: GroupTable)
        ensures
            t@ =~= Seq::<GroupModel>::empty(),
            t.wf(),
    {
        let t = GroupTable { groups: Vec::new() };
        proof {
            assert(t@ =~= Seq::<GroupModel>::empty());
        }
        t
    }

    /// Looks a name up without creating anything: the index of the group
    /// with that name, or `None` when no such group exists.
    pub fn get(&self, group_name: &Vec<u8>) -> (r: Option<usize>)
        ensures
            match r {
                Some(i) => i < self@.len() && self@[i as int].name == group_name@,
                None => !table_has(self@, group_name@),
            },
    {
        let mut i: usize = 0;
        while i < self.groups.len()
            invariant
                i <= self.groups.len(),
                forall|j: int| 0 <= j < i ==> self@[j].name != group_name@,
            decreases self.groups.len() - i,
        {
            let name_i = self.groups[i].name();
            if bytes_eq(&name_i, group_name) {
                return Some(i);
            }
            i = i + 1;
        }
        None
    }

    /// Returns the index of the group with this name, creating the group
    /// first when no group has it yet. Creation happens at most once per
    /// name: a second call with the same name returns the same index and
    /// leaves the table untouched.
    pub fn add_and_get(&mut self, group_name: Vec<u8>) -> (i: usize)
        requires
            old(self).wf(),
        ensures
            final(self).wf(),
            final(self)@ == table_get_or_create(old(self)@, group_name@),
            i < final(self)@.len(),
            final(self)@[i as int].name == group_name@,
            !table_has(old(self)@, group_name@) ==> i == old(self)@.len(),
    {
        match self.get(&group_name) {
            Some(i) => {
                proof {
                    assert(table_has(self@, group_name@));
                    assert(table_get_or_create(self@, group_name@) == self@);
                }
                i
            }
            None => {
                let i = self.groups.len();
                self.groups.push(Group::new(group_name));
                proof {
                    assert(self@ =~= old(self)@.push(self@[old(self)@.len() as int]));
                    assert(self@ =~~= table_get_or_create(old(self)@, group_name@));
                }
                i
            }
        }
    }

    /// Adds one subscription to the group at index `i`.
    pub fn join_at(&mut self, i: usize) -> (sub: usize)
        requires
            old(self).wf(),
            i < old(self)@.len(),
        ensures
            final(self).wf(),
            final(self)@ == old(self)@.update(i as int, group_join(old(self)@[i as int])),
            sub == old(self)@[i as int].cursors.len(),
    {
        proof {
            assert(self@[i as int].wf());
            assert(self@[i as int] == self.groups@[i as int]@);
        }
        let g = &mut self.groups[i];
        let sub = g.join();
        proof {
            assert(self@ =~= old(self)@.update(i as int, group_join(old(self)@[i as int])));
            assert(forall|j: int| 0 <= j < self@.len() ==> (#[trigger] self@[j]).name
                == old(self)@[j].name);
        }
        sub
    }

    /// Publishes a message to the group at index `i`.
    pub fn post_at(&mut self, i: usize, message: Vec<u8>)
        requires
            old(self).wf(),
            i < old(self)@.len(),
            old(self)@[i as int].head < u64::MAX,
        ensures
            final(self).wf(),
            final(self)@ == old(self)@.update(
                i as int,
                group_post(old(self)@[i as int], message@),
            ),
    {
        proof {
            assert(self@[i as int].wf());
            assert(self@[i as int] == self.groups@[i as int]@);
        }
        let g = &mut self.groups[i];
        g.post(message);
        proof {
            assert(self@ =~= old(self)@.update(
                i as int,
                group_post(old(self)@[i as int], message@),
            ));
            assert(forall|j: int| 0 <= j < self@.len() ==> (#[trigger] self@[j]).name
                == old(self)@[j].name);
        }
    }

    /// How many groups the table holds.
    pub fn group_count(&self) -> (r: usize)
        ensures
            r == self@.len(),
    {
        self.groups.len()
    }

    /// How many subscriptions the group at index `i` has.
    pub fn subscriber_count_at(&self, i: usize) -> (r: usize)
        requires
            i < self@.len(),
        ensures
            r == self@[i as int].cursors.len(),
    {
        self.groups[i].subscriber_count()
    }

    /// Whether every group can still take a post without exhausting its
    /// post counter.
    pub fn can_post(&self) -> (r: bool)
        ensures
            r == forall|j: int| 0 <= j < self@.len() ==> (#[trigger] self@[j]).head
                < u64::MAX,
    {
        let mut i: usize = 0;
        while i < self.groups.len()
            invariant
                i <= self.groups.len(),
                forall|j: int| 0 <= j < i ==> (#[trigger] self@[j]).head < u64::MAX,
            decreases self.groups.len() - i,
        {
            if self.groups[i].total_posted() == u64::MAX {
                proof {
                    assert(self@[i as int].head >= u64::MAX);
                }
                return false;
            }
            i = i + 1;
        }
        true
    }

    /// The name of the group at index `i`.
    pub fn name_at(&self, i: usize) -> (r: Vec<u8>)
        requires
            i < self@.len(),
        ensures
            r@ == self@[i as int].name,
    {
        self.groups[i].name()
    }

    /// Takes the next event for subscription `sub` of the group at index
    /// `i`.
    pub fn recv_at(&mut self, i: usize, sub: usize) -> (e: RecvEvent)
        requires
            old(self).wf(),
            i < old(self)@.len(),
            sub < old(self)@[i as int].cursors.len(),
            old(self)@[i as int].active[sub as int],
        ensures
            final(self).wf(),
            final(self)@ == old(self)@.update(
                i as int,
                group_recv_next(old(self)@[i as int], sub as int),
            ),
            e@ == group_recv_event(old(self)@[i as int], sub as int),
    {
        proof {
            assert(self@[i as int].wf());
            assert(self@[i as int] == self.groups@[i as int]@);
        }
        let g = &mut self.groups[i];
        let e = g.recv(sub);
        proof {
            assert(self@ =~= old(self)@.update(
                i as int,
                group_recv_next(old(self)@[i as int], sub as int),
            ));
            assert(forall|j: int| 0 <= j < self@.len() ==> (#[trigger] self@[j]).name
                == old(self)@[j].name);
        }
        e
    }

    /// Whether subscription `sub` of the group at index `i` is still live.
    pub fn is_active_at(&self, i: usize, sub: usize) -> (r: bool)
        requires
            self.wf(),
            i < self@.len(),
            sub < self@[i as int].cursors.len(),
        ensures
            r == self@[i as int].active[sub as int],
    {
        proof {
            assert(self@[i as int].wf());
            assert(self@[i as int] == self.groups@[i as int]@);
        }
        self.groups[i].is_active(sub)
    }

    /// Retires subscription `sub` of the group at index `i`; everything
    /// else in the table stays as it was.
    pub fn leave_at(&mut self, i: usize, sub: usize)
        requires
            old(self).wf(),
            i < old(self)@.len(),
            sub < old(self)@[i as int].cursors.len(),
        ensures
            final(self).wf(),
            final(self)@ == old(self)@.update(
                i as int,
                group_leave(old(self)@[i as int], sub as int),
            ),
    {
        proof {
            assert(self@[i as int].wf());
            assert(self@[i as int] == self.groups@[i as int]@);
        }
        let g = &mut self.groups[i];
        g.leave(sub);
        proof {
            assert(self@ =~= old(self)@.update(
                i as int,
                group_leave(old(self)@[i as int], sub as int),
            ));
            assert(forall|j: int| 0 <= j < self@.len() ==> (#[trigger] self@[j]).name
                == old(self)@[j].name);
        }
    }
}

/// At most one group ever exists per name: any two table entries carrying
/// the same name are the same entry, so every caller that looks a name up
/// is handed the same group.
pub proof fn law_one_group_per_name(t: Seq<GroupModel>, name: Seq<u8>, i: int, j: int)
    requires
        table_wf(t),
        0 <= i < t.len(),
        0 <= j < t.len(),
        t[i].name == name,
        t[j].name == name,
    ensures
        i == j,
{
}

/// Get-or-create constructs a group exactly once: the first call for a name
/// adds at most one group, and every later call for the same name — however
/// many callers repeat it — leaves the table exactly as it was.
pub proof fn law_get_or_create_once(t: Seq<GroupModel>, name: Seq<u8>)
    requires
        table_wf(t),
    ensures
        table_wf(table_get_or_create(t, name)),
        table_has(table_get_or_create(t, name), name),
        table_get_or_create(t, name).len() <= t.len() + 1,
        table_get_or_create(table_get_or_create(t, name), name) == table_get_or_create(t, name),
{
    let t1 = table_get_or_create(t, name);
    if table_has(t, name) {
        assert(t1 == t);
    } else {
        assert(t1 == t.push(group_new(name)));
        assert(t1[t.len() as int].name == name);
        assert(table_has(t1, name));
        assert forall|i: int, j: int|
            0 <= i < t1.len() && 0 <= j < t1.len() && i != j implies t1[i].name
            != t1[j].name by {
            if i < t.len() && j < t.len() {
            } else if i == t.len() {
                assert(!(exists|k: int| 0 <= k < t.len() && (#[trigger] t[k]).name == name));
                assert(t1[j].name == t[j].name);
            } else {
                assert(t1[i].name == t[i].name);
            }
        }
    }
    assert(table_get_or_create(t1, name) == t1);
}

} // verus!
