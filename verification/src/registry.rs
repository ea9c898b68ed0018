//! The approval registry: for each token at most one approved identity, and
//! for each owner the operators it gave blanket approval, every entry with
//! the horizon after which it is no longer honoured.
//!
//! Entries are short-lived by design. The registry keeps the present and
//! answers only with entries whose horizon has not passed; a lapsed entry
//! and an absent one are answered alike.

use vstd::prelude::*;
use vstd::map::*;
use std::collections::HashMap;
use crate::identity::Identity;
use crate::model::Approval;

verus! {

broadcast use vstd::std_specs::hash::group_hash_axioms;

/// A blanket approval: `operator` may act for `owner` until `horizon`.
struct Grant {
    owner: Identity,
    operator: Identity,
    horizon: u32,
}

spec fn granted(rows: Seq<Grant>, owner: Identity, operator: Identity) -> bool {
    exists|i: int|
        0 <= i < rows.len() && (#[trigger] rows[i]).owner == owner && rows[i].operator == operator
}

spec fn grant_slot(rows: Seq<Grant>, owner: Identity, operator: Identity) -> int {
    choose|i: int|
        0 <= i < rows.len() && (#[trigger] rows[i]).owner == owner && rows[i].operator == operator
}

spec fn grants_distinct(rows: Seq<Grant>) -> bool {
    forall|i: int, j: int|
        0 <= i < rows.len() && 0 <= j < rows.len() && i != j ==> !((#[trigger] rows[i]).owner == (
        #[trigger] rows[j]).owner && rows[i].operator == rows[j].operator)
}

spec fn grants_map(rows: Seq<Grant>) -> Map<(Identity, Identity), u32> {
    Map::new(
        |p: (Identity, Identity)| granted(rows, p.0, p.1),
        |p: (Identity, Identity)| rows[grant_slot(rows, p.0, p.1)].horizon,
    )
}

proof fn lemma_grant_slot(rows: Seq<Grant>, i: int)
    requires
        grants_distinct(rows),
        0 <= i < rows.len(),
    ensures
        granted(rows, rows[i].owner, rows[i].operator),
        grant_slot(rows, rows[i].owner, rows[i].operator) == i,
        grants_map(rows).contains_key((rows[i].owner, rows[i].operator)),
        grants_map(rows)[(rows[i].owner, rows[i].operator)] == rows[i].horizon,
{
    let j = grant_slot(rows, rows[i].owner, rows[i].operator);
    assert(granted(rows, rows[i].owner, rows[i].operator));
    assert(0 <= j < rows.len() && rows[j].owner == rows[i].owner && rows[j].operator
        == rows[i].operator);
}

proof fn lemma_grant_replaced(rows: Seq<Grant>, i: int, row: Grant)
    requires
        grants_distinct(rows),
        0 <= i < rows.len(),
        row.owner == rows[i].owner,
        row.operator == rows[i].operator,
    ensures
        grants_distinct(rows.update(i, row)),
        grants_map(rows.update(i, row)) == grants_map(rows).insert(
            (row.owner, row.operator),
            row.horizon,
        ),
{
    let rows2 = rows.update(i, row);
    assert forall|a: int, b: int|
        0 <= a < rows2.len() && 0 <= b < rows2.len() && a != b implies !((#[trigger] rows2[a]).owner
        == (#[trigger] rows2[b]).owner && rows2[a].operator == rows2[b].operator) by {
        assert(rows2[a].owner == rows[a].owner && rows2[a].operator == rows[a].operator);
        assert(rows2[b].owner == rows[b].owner && rows2[b].operator == rows[b].operator);
    }
    lemma_grant_slot(rows2, i);
    let want = grants_map(rows).insert((row.owner, row.operator), row.horizon);
    assert_maps_equal!(grants_map(rows2), want, p => {
        if p != (row.owner, row.operator) {
            if granted(rows, p.0, p.1) {
                let j = grant_slot(rows, p.0, p.1);
                assert(rows[j].owner == p.0 && rows[j].operator == p.1);
                assert(rows2[j] == rows[j]);
                lemma_grant_slot(rows2, j);
            } else if granted(rows2, p.0, p.1) {
                let j = grant_slot(rows2, p.0, p.1);
                assert(rows2[j].owner == p.0 && rows2[j].operator == p.1);
                assert(rows[j].owner == p.0 && rows[j].operator == p.1);
            }
        }
    });
}

proof fn lemma_grant_added(rows: Seq<Grant>, row: Grant)
    requires
        grants_distinct(rows),
        !granted(rows, row.owner, row.operator),
    ensures
        grants_distinct(rows.push(row)),
        grants_map(rows.push(row)) == grants_map(rows).insert(
            (row.owner, row.operator),
            row.horizon,
        ),
{
    let rows2 = rows.push(row);
    let n = rows.len() as int;
    assert forall|a: int, b: int|
        0 <= a < rows2.len() && 0 <= b < rows2.len() && a != b implies !((#[trigger] rows2[a]).owner
        == (#[trigger] rows2[b]).owner && rows2[a].operator == rows2[b].operator) by {
        if a < n {
            assert(rows2[a] == rows[a]);
        }
        if b < n {
            assert(rows2[b] == rows[b]);
        }
    }
    assert(rows2[n] == row);
    lemma_grant_slot(rows2, n);
    let want = grants_map(rows).insert((row.owner, row.operator), row.horizon);
    assert_maps_equal!(grants_map(rows2), want, p => {
        if p != (row.owner, row.operator) {
            if granted(rows, p.0, p.1) {
                let j = grant_slot(rows, p.0, p.1);
                assert(rows[j].owner == p.0 && rows[j].operator == p.1);
                assert(rows2[j] == rows[j]);
                lemma_grant_slot(rows2, j);
            } else if granted(rows2, p.0, p.1) {
                let j = grant_slot(rows2, p.0, p.1);
                assert(rows2[j].owner == p.0 && rows2[j].operator == p.1);
                assert(rows[j].owner == p.0 && rows[j].operator == p.1);
            }
        }
    });
}

proof fn lemma_grant_dropped(rows: Seq<Grant>, i: int)
    requires
        grants_distinct(rows),
        0 <= i < rows.len(),
    ensures
        grants_distinct(rows.update(i, rows.last()).drop_last()),
        grants_map(rows.update(i, rows.last()).drop_last()) == grants_map(rows).remove(
            (rows[i].owner, rows[i].operator),
        ),
{
    let rows2 = rows.update(i, rows.last()).drop_last();
    let n = rows.len() as int;
    let gone = (rows[i].owner, rows[i].operator);
    assert forall|a: int| 0 <= a < rows2.len() implies #[trigger] rows2[a] == (if a == i {
        rows[n - 1]
    } else {
        rows[a]
    }) by {}
    assert forall|a: int, b: int|
        0 <= a < rows2.len() && 0 <= b < rows2.len() && a != b implies !((#[trigger] rows2[a]).owner
        == (#[trigger] rows2[b]).owner && rows2[a].operator == rows2[b].operator) by {
        let a0 = if a == i { n - 1 } else { a };
        let b0 = if b == i { n - 1 } else { b };
        assert(rows2[a] == rows[a0]);
        assert(rows2[b] == rows[b0]);
    }
    let want = grants_map(rows).remove(gone);
    assert_maps_equal!(grants_map(rows2), want, p => {
        if granted(rows2, p.0, p.1) {
            let j = grant_slot(rows2, p.0, p.1);
            let j0 = if j == i { n - 1 } else { j };
            assert(rows2[j] == rows[j0]);
            lemma_grant_slot(rows, j0);
            lemma_grant_slot(rows2, j);
            assert(rows[j0].owner == p.0 && rows[j0].operator == p.1);
            assert(j0 != i);
        }
        if want.contains_key(p) {
            let j = grant_slot(rows, p.0, p.1);
            assert(rows[j].owner == p.0 && rows[j].operator == p.1);
            assert(j != i);
            let j2 = if j == n - 1 { i } else { j };
            assert(rows2[j2] == rows[j]);
            lemma_grant_slot(rows2, j2);
        }
    });
}

/// The single and blanket approvals, and the present.
pub struct ApprovalRegistry {
    approved: HashMap<u32, Approval>,
    grants: Vec<Grant>,
    now: u32,
}

impl ApprovalRegistry {
    /// The single approval recorded for each token, lapsed or not.
    pub closed spec fn approved(&self) -> Map<u32, Approval> {
        self.approved@
    }

    /// The horizon of each recorded blanket approval, lapsed or not, by owner
    /// and operator.
    pub closed spec fn operators(&self) -> Map<(Identity, Identity), u32> {
        grants_map(self.grants@)
    }

    /// The present.
    pub closed spec fn now(&self) -> u32 {
        self.now
    }

    /// No owner and operator have two blanket approvals on record.
    pub closed spec fn wf(&self) -> bool {
        grants_distinct(self.grants@)
    }

    /// The identity that holds the live single approval of a token.
    pub open spec fn approved_for(&self, token: u32) -> Option<Identity> {
        if self.approved().contains_key(token) && self.approved()[token].horizon >= self.now() {
            Some(self.approved()[token].who)
        } else {
            None
        }
    }

    /// Whether `operator` holds a live blanket approval of `owner`.
    pub open spec fn is_operator(&self, owner: Identity, operator: Identity) -> bool {
        self.operators().contains_key((owner, operator)) && self.operators()[(owner, operator)]
            >= self.now()
    }

    /// A registry without entries, at the beginning of time.
    pub fn new() -> (registry: ApprovalRegistry)
        ensures
            registry.wf(),
            registry.approved() == Map::<u32, Approval>::empty(),
            registry.operators() == Map::<(Identity, Identity), u32>::empty(),
            registry.now() == 0,
    {
        let registry = ApprovalRegistry { approved: HashMap::new(), grants: Vec::new(), now: 0 };
        assert(registry.operators() =~= Map::<(Identity, Identity), u32>::empty());
        registry
    }

    /// Moves the present to `now`, unless that lies in the past.
    pub fn advance_to(&mut self, now: u32)
        requires
            old(self).wf(),
        ensures
            final(self).wf(),
            final(self).approved() == old(self).approved(),
            final(self).operators() == old(self).operators(),
            final(self).now() == (if now > old(self).now() {
                now
            } else {
                old(self).now()
            }),
    {
        if now > self.now {
            self.now = now;
        }
    }

    /// The identity that holds the live single approval of a token.
    pub fn get_approved(&self, token: u32) -> (who: Option<Identity>)
        ensures
            who == self.approved_for(token),
    {
        match self.approved.get(&token) {
            Some(a) => if a.horizon >= self.now {
                Some(a.who)
            } else {
                None
            },
            None => None,
        }
    }

    /// Records `who` as the approved identity of `token` until `horizon`,
    /// in place of any earlier approval.
    pub fn set_approved(&mut self, token: u32, who: Identity, horizon: u32)
        requires
            old(self).wf(),
        ensures
            final(self).wf(),
            final(self).approved() == old(self).approved().insert(token, Approval { who, horizon }),
            final(self).operators() == old(self).operators(),
            final(self).now() == old(self).now(),
    {
        self.approved.insert(token, Approval { who, horizon });
    }

    /// Forgets the single approval of `token`, if there is one.
    pub fn clear_approved(&mut self, token: u32)
        requires
            old(self).wf(),
        ensures
            final(self).wf(),
            final(self).approved() == old(self).approved().remove(token),
            final(self).operators() == old(self).operators(),
            final(self).now() == old(self).now(),
    {
        self.approved.remove(&token);
    }

    fn find(&self, owner: &Identity, operator: &Identity) -> (found: Option<usize>)
        requires
            self.wf(),
        ensures
            match found {
                Some(i) => i < self.grants@.len() && self.grants@[i as int].owner == *owner
                    && self.grants@[i as int].operator == *operator && self.operators().contains_key(
                    (*owner, *operator),
                ) && self.operators()[(*owner, *operator)] == self.grants@[i as int].horizon,
                None => !self.operators().contains_key((*owner, *operator)),
            },
    {
        let mut i: usize = 0;
        while i < self.grants.len()
            invariant
                i <= self.grants@.len(),
                self.wf(),
                forall|j: int|
                    0 <= j < i ==> !((#[trigger] self.grants@[j]).owner == *owner
                        && self.grants@[j].operator == *operator),
            decreases self.grants@.len() - i,
        {
            if self.grants[i].owner.same(owner) && self.grants[i].operator.same(operator) {
                proof {
                    lemma_grant_slot(self.grants@, i as int);
                }
                return Some(i);
            }
            i = i + 1;
        }
        None
    }

    /// Whether `operator` holds a live blanket approval of `owner`.
    pub fn is_approval_for_all(&self, owner: &Identity, operator: &Identity) -> (live: bool)
        requires
            self.wf(),
        ensures
            live == self.is_operator(*owner, *operator),
    {
        match self.find(owner, operator) {
            Some(i) => self.grants[i].horizon >= self.now,
            None => false,
        }
    }

    /// Records that `operator` may act for `owner` until `horizon`, in place
    /// of any earlier blanket approval of the two.
    pub fn grant(&mut self, owner: Identity, operator: Identity, horizon: u32)
        requires
            old(self).wf(),
        ensures
            final(self).wf(),
            final(self).operators() == old(self).operators().insert((owner, operator), horizon),
            final(self).approved() == old(self).approved(),
            final(self).now() == old(self).now(),
    {
        let row = Grant { owner, operator, horizon };
        match self.find(&owner, &operator) {
            Some(i) => {
                proof {
                    lemma_grant_replaced(self.grants@, i as int, row);
                }
                self.grants[i] = row;
            },
            None => {
                proof {
                    lemma_grant_added(self.grants@, row);
                }
                self.grants.push(row);
            },
        }
    }

    /// Forgets the blanket approval that `owner` gave `operator`, if any.
    pub fn revoke(&mut self, owner: &Identity, operator: &Identity)
        requires
            old(self).wf(),
        ensures
            final(self).wf(),
            final(self).operators() == old(self).operators().remove((*owner, *operator)),
            final(self).approved() == old(self).approved(),
            final(self).now() == old(self).now(),
    {
        match self.find(owner, operator) {
            Some(i) => {
                proof {
                    lemma_grant_dropped(self.grants@, i as int);
                }
                self.grants.swap_remove(i);
            },
            None => {
                assert(self.operators() =~= self.operators().remove((*owner, *operator)));
            },
        }
    }
}

} // verus!
