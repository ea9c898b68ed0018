//! The holders' table: for each identity its balance counter and, where the
//! enumeration is maintained, the index of the tokens it owns.

use vstd::prelude::*;
use crate::identity::Identity;
use crate::index::{coherent, rearranges, without, TokenIndex};

verus! {

/// What the ledger keeps for one identity.
struct Holder {
    who: Identity,
    count: u32,
    index: TokenIndex,
}

impl Holder {
    spec fn wf(&self) -> bool {
        self.index.wf()
    }

    fn credit(&mut self, token: u32, enumerable: bool)
        requires
            old(self).wf(),
            old(self).count < u32::MAX,
            old(self).index@.len() < u32::MAX,
            !old(self).index@.contains(token),
        ensures
            final(self).wf(),
            final(self).who == old(self).who,
            final(self).count == old(self).count + 1,
            final(self).index@ == (if enumerable {
                old(self).index@.push(token)
            } else {
                old(self).index@
            }),
    {
        self.count = self.count + 1;
        if enumerable {
            self.index.insert(token);
        }
    }

    fn install(&mut self, index: TokenIndex)
        requires
            index.wf(),
        ensures
            final(self).wf(),
            final(self).who == old(self).who,
            final(self).count == old(self).count,
            final(self).index == index,
    {
        self.index = index;
    }

    fn debit(&mut self, token: u32, enumerable: bool)
        requires
            old(self).wf(),
            old(self).count >= 1,
            enumerable ==> old(self).index@.contains(token),
        ensures
            final(self).wf(),
            final(self).who == old(self).who,
            final(self).count == old(self).count - 1,
            final(self).index@ == (if enumerable {
                without(old(self).index@, token)
            } else {
                old(self).index@
            }),
    {
        self.count = self.count - 1;
        if enumerable {
            self.index.remove(token);
        }
    }
}

/// Whether the table has a row for `who`.
spec fn known(rows: Seq<Holder>, who: Identity) -> bool {
    exists|i: int| 0 <= i < rows.len() && (#[trigger] rows[i]).who == who
}

/// The row of `who`, where the table has one.
spec fn slot(rows: Seq<Holder>, who: Identity) -> int {
    choose|i: int| 0 <= i < rows.len() && (#[trigger] rows[i]).who == who
}

/// No identity has two rows.
spec fn distinct(rows: Seq<Holder>) -> bool {
    forall|i: int, j: int|
        0 <= i < rows.len() && 0 <= j < rows.len() && i != j ==> (#[trigger] rows[i]).who != (
        #[trigger] rows[j]).who
}

/// The balance counter of `who`: zero where the table has no row.
spec fn count_of(rows: Seq<Holder>, who: Identity) -> nat {
    if known(rows, who) {
        rows[slot(rows, who)].count as nat
    } else {
        0
    }
}

/// The tokens listed for `who`: none where the table has no row.
spec fn list_of(rows: Seq<Holder>, who: Identity) -> Seq<u32> {
    if known(rows, who) {
        rows[slot(rows, who)].index@
    } else {
        Seq::empty()
    }
}

proof fn lemma_slot(rows: Seq<Holder>, i: int)
    requires
        distinct(rows),
        0 <= i < rows.len(),
    ensures
        known(rows, rows[i].who),
        slot(rows, rows[i].who) == i,
        count_of(rows, rows[i].who) == rows[i].count,
        list_of(rows, rows[i].who) == rows[i].index@,
{
    let who = rows[i].who;
    assert(known(rows, who));
    let j = slot(rows, who);
    assert(0 <= j < rows.len() && rows[j].who == who);
}

proof fn lemma_row_replaced(rows: Seq<Holder>, i: int, row: Holder)
    requires
        distinct(rows),
        0 <= i < rows.len(),
        row.who == rows[i].who,
    ensures
        distinct(rows.update(i, row)),
        forall|o: Identity|
            count_of(rows.update(i, row), o) == (if o == row.who {
                row.count as nat
            } else {
                count_of(rows, o)
            }),
        forall|o: Identity|
            list_of(rows.update(i, row), o) == (if o == row.who {
                row.index@
            } else {
                list_of(rows, o)
            }),
{
    let rows2 = rows.update(i, row);
    assert forall|a: int, b: int|
        0 <= a < rows2.len() && 0 <= b < rows2.len() && a != b implies (#[trigger] rows2[a]).who != (
    #[trigger] rows2[b]).who by {
        assert(rows2[a].who == rows[a].who);
        assert(rows2[b].who == rows[b].who);
    }
    lemma_slot(rows2, i);
    assert forall|o: Identity| o != row.who implies count_of(rows2, o) == count_of(rows, o)
        && list_of(rows2, o) == list_of(rows, o) by {
        if known(rows, o) {
            let j = slot(rows, o);
            assert(rows[j].who == o);
            assert(rows2[j] == rows[j]);
            lemma_slot(rows2, j);
        } else if known(rows2, o) {
            let j = slot(rows2, o);
            assert(rows2[j].who == o);
            assert(rows[j].who == o);
        }
    }
}

proof fn lemma_row_added(rows: Seq<Holder>, row: Holder)
    requires
        distinct(rows),
        !known(rows, row.who),
    ensures
        distinct(rows.push(row)),
        forall|o: Identity|
            count_of(rows.push(row), o) == (if o == row.who {
                row.count as nat
            } else {
                count_of(rows, o)
            }),
        forall|o: Identity|
            list_of(rows.push(row), o) == (if o == row.who {
                row.index@
            } else {
                list_of(rows, o)
            }),
{
    let rows2 = rows.push(row);
    let n = rows.len() as int;
    assert forall|a: int, b: int|
        0 <= a < rows2.len() && 0 <= b < rows2.len() && a != b implies (#[trigger] rows2[a]).who != (
    #[trigger] rows2[b]).who by {
        if a < n {
            assert(rows2[a] == rows[a]);
        }
        if b < n {
            assert(rows2[b] == rows[b]);
        }
    }
    assert(rows2[n] == row);
    lemma_slot(rows2, n);
    assert forall|o: Identity| o != row.who implies count_of(rows2, o) == count_of(rows, o)
        && list_of(rows2, o) == list_of(rows, o) by {
        if known(rows, o) {
            let j = slot(rows, o);
            assert(rows[j].who == o);
            assert(rows2[j] == rows[j]);
            lemma_slot(rows2, j);
        } else if known(rows2, o) {
            let j = slot(rows2, o);
            assert(rows2[j].who == o);
            assert(rows[j].who == o);
        }
    }
}

/// The balance counters and token lists of all identities.
pub struct Holders {
    rows: Vec<Holder>,
}

impl Holders {
    /// The balance counter of every identity.
    pub closed spec fn balances(&self) -> Map<Identity, nat> {
        Map::total(|o: Identity| count_of(self.rows@, o))
    }

    /// The token list of every identity.
    pub closed spec fn owned(&self) -> Map<Identity, Seq<u32>> {
        Map::total(|o: Identity| list_of(self.rows@, o))
    }

    /// The reverse lookup that goes with the token list of `who`.
    pub closed spec fn reverse(&self, who: Identity) -> Map<u32, u32> {
        if known(self.rows@, who) {
            self.rows@[slot(self.rows@, who)].index.reverse()
        } else {
            Map::empty()
        }
    }

    /// No identity has two rows, and every row's index is coherent.
    pub closed spec fn wf(&self) -> bool {
        &&& distinct(self.rows@)
        &&& forall|i: int| 0 <= i < self.rows@.len() ==> (#[trigger] self.rows@[i]).wf()
    }

    /// The token list of every identity agrees with its reverse lookup.
    pub proof fn lemma_coherent(&self, who: Identity)
        requires
            self.wf(),
        ensures
            coherent(self.owned()[who], self.reverse(who)),
    {
        if known(self.rows@, who) {
            let i = slot(self.rows@, who);
            assert(self.rows@[i].wf());
        }
    }

    /// A table in which every counter is zero and every list empty.
    pub fn new() -> (table: Holders)
        ensures
            table.wf(),
            table.balances() == Map::total(|o: Identity| 0nat),
            table.owned() == Map::total(|o: Identity| Seq::<u32>::empty()),
    {
        let table = Holders { rows: Vec::new() };
        assert(table.balances() =~= Map::total(|o: Identity| 0nat));
        assert(table.owned() =~= Map::total(|o: Identity| Seq::<u32>::empty()));
        table
    }

    fn find(&self, who: &Identity) -> (found: Option<usize>)
        requires
            self.wf(),
        ensures
            match found {
                Some(i) => i < self.rows@.len() && self.rows@[i as int].who == *who && slot(
                    self.rows@,
                    *who,
                ) == i && known(self.rows@, *who),
                None => !known(self.rows@, *who),
            },
    {
        let mut i: usize = 0;
        while i < self.rows.len()
            invariant
                i <= self.rows@.len(),
                self.wf(),
                forall|j: int| 0 <= j < i ==> (#[trigger] self.rows@[j]).who != *who,
            decreases self.rows@.len() - i,
        {
            if self.rows[i].who.same(who) {
                proof {
                    lemma_slot(self.rows@, i as int);
                }
                return Some(i);
            }
            i = i + 1;
        }
        None
    }

    /// The balance counter of `who`.
    pub fn balance(&self, who: &Identity) -> (n: u32)
        requires
            self.wf(),
        ensures
            n == self.balances()[*who],
    {
        match self.find(who) {
            Some(i) => self.rows[i].count,
            None => 0,
        }
    }

    /// The token at a position of the list of `who`, or nothing past its end.
    pub fn token_at(&self, who: &Identity, position: u32) -> (token: Option<u32>)
        requires
            self.wf(),
        ensures
            token == (if position < self.owned()[*who].len() {
                Some(self.owned()[*who][position as int])
            } else {
                None
            }),
    {
        match self.find(who) {
            Some(i) => self.rows[i].index.get(position),
            None => None,
        }
    }

    /// Counts one more token for `who` and, where the enumeration is
    /// maintained, appends the token to the list of `who`.
    pub fn credit(&mut self, who: &Identity, token: u32, enumerable: bool)
        requires
            old(self).wf(),
            old(self).balances()[*who] < u32::MAX,
            old(self).owned()[*who].len() < u32::MAX,
            !old(self).owned()[*who].contains(token),
        ensures
            final(self).wf(),
            final(self).balances() == old(self).balances().insert(
                *who,
                old(self).balances()[*who] + 1,
            ),
            final(self).owned() == (if enumerable {
                old(self).owned().insert(*who, old(self).owned()[*who].push(token))
            } else {
                old(self).owned()
            }),
    {
        let i: usize = match self.find(who) {
            Some(i) => i,
            None => {
                let row = Holder { who: *who, count: 0, index: TokenIndex::new() };
                proof {
                    lemma_row_added(self.rows@, row);
                }
                self.rows.push(row);
                proof {
                    lemma_slot(self.rows@, self.rows@.len() - 1);
                }
                self.rows.len() - 1
            },
        };
        let ghost before = self.rows@;
        assert(count_of(before, *who) == old(self).balances()[*who]);
        assert(list_of(before, *who) == old(self).owned()[*who]);
        assert(forall|o: Identity| o != *who ==> count_of(before, o) == old(self).balances()[o]);
        assert(forall|o: Identity| o != *who ==> list_of(before, o) == old(self).owned()[o]);
        self.rows[i].credit(token, enumerable);
        proof {
            lemma_row_replaced(before, i as int, self.rows@[i as int]);
            assert(self.rows@ =~= before.update(i as int, self.rows@[i as int]));
            assert(final(self).balances() =~= old(self).balances().insert(
                *who,
                old(self).balances()[*who] + 1,
            ));
            if enumerable {
                assert(final(self).owned() =~= old(self).owned().insert(
                    *who,
                    old(self).owned()[*who].push(token),
                ));
            } else {
                assert(final(self).owned() =~= old(self).owned());
            }
        }
    }

    /// Counts one token less for `who` and, where the enumeration is
    /// maintained, removes the token from the list of `who` by moving the
    /// last token of the list into its place.
    pub fn debit(&mut self, who: &Identity, token: u32, enumerable: bool)
        requires
            old(self).wf(),
            old(self).balances()[*who] >= 1,
            enumerable ==> old(self).owned()[*who].contains(token),
        ensures
            final(self).wf(),
            final(self).balances() == old(self).balances().insert(
                *who,
                (old(self).balances()[*who] - 1) as nat,
            ),
            final(self).owned() == (if enumerable {
                old(self).owned().insert(*who, without(old(self).owned()[*who], token))
            } else {
                old(self).owned()
            }),
    {
        let found = self.find(who);
        assert(found is Some);
        let i: usize = match found {
            Some(i) => i,
            None => 0,
        };
        let ghost before = self.rows@;
        proof {
            lemma_slot(before, i as int);
        }
        self.rows[i].debit(token, enumerable);
        proof {
            lemma_row_replaced(before, i as int, self.rows@[i as int]);
            assert(self.rows@ =~= before.update(i as int, self.rows@[i as int]));
            assert(final(self).balances() =~= old(self).balances().insert(
                *who,
                (old(self).balances()[*who] - 1) as nat,
            ));
            if enumerable {
                assert(final(self).owned() =~= old(self).owned().insert(
                    *who,
                    without(old(self).owned()[*who], token),
                ));
            } else {
                assert(final(self).owned() =~= old(self).owned());
            }
        }
    }

    /// Takes `order` as the token list of `who`, if it lists tokens of the
    /// present list, each once, and as many as the present list holds.
    /// Otherwise nothing changes, and the answer is `false`.
    pub fn arrange(&mut self, who: &Identity, order: &Vec<u32>) -> (done: bool)
        requires
            old(self).wf(),
        ensures
            final(self).wf(),
            done == rearranges(order@, old(self).owned()[*who]),
            final(self).balances() == old(self).balances(),
            final(self).owned() == (if done {
                old(self).owned().insert(*who, order@)
            } else {
                old(self).owned()
            }),
    {
        let i: usize = match self.find(who) {
            Some(i) => i,
            None => {
                let done = order.len() == 0;
                proof {
                    if done {
                        assert(order@ =~= Seq::<u32>::empty());
                        assert(self.owned() =~= self.owned().insert(*who, order@));
                    }
                }
                return done;
            },
        };
        proof {
            lemma_slot(self.rows@, i as int);
            assert(self.rows@[i as int].wf());
        }
        let index = match TokenIndex::from_list(order) {
            Some(index) => index,
            None => {
                return false;
            },
        };
        if index.len() != self.rows[i].index.len() {
            return false;
        }
        let mut k: usize = 0;
        while k < order.len()
            invariant
                k <= order@.len(),
                i < self.rows@.len(),
                *self == *old(self),
                self.wf(),
                self.rows@[i as int].wf(),
                self.owned()[*who] == self.rows@[i as int].index@,
                forall|j: int| 0 <= j < k ==> self.rows@[i as int].index@.contains(order@[j]),
            decreases order@.len() - k,
        {
            if !self.rows[i].index.contains(order[k]) {
                assert(order@.contains(order@[k as int]));
                return false;
            }
            k = k + 1;
        }
        proof {
            assert forall|t: u32| #[trigger] order@.contains(t) implies self.rows@[i as int].index@.contains(
                t,
            ) by {
                let j = choose|j: int| 0 <= j < order@.len() && order@[j] == t;
                assert(self.rows@[i as int].index@.contains(order@[j]));
            }
        }
        let ghost before = self.rows@;
        self.rows[i].install(index);
        proof {
            lemma_row_replaced(before, i as int, self.rows@[i as int]);
            assert(self.rows@ =~= before.update(i as int, self.rows@[i as int]));
            assert(final(self).balances() =~= old(self).balances());
            assert(final(self).owned() =~= old(self).owned().insert(*who, order@));
        }
        true
    }
}

} // verus!
