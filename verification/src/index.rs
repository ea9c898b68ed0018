//! The enumeration index: a dense list of token ids paired with a reverse
//! lookup from token id to position, so that a token can be appended and any
//! token removed in constant time.
//!
//! Removal swaps the last token into the vacated position. Enumeration order
//! is therefore stable between mutations but is not the order of insertion
//! once anything has been removed.

use vstd::prelude::*;
use std::collections::HashMap;

verus! {

broadcast use vstd::std_specs::hash::group_hash_axioms;

/// The list that is left when the token at position `p` is removed from
/// `list` by moving the last token into its place.
pub open spec fn swap_removed(list: Seq<u32>, p: int) -> Seq<u32>
    recommends
        0 <= p < list.len(),
{
    list.update(p, list.last()).drop_last()
}

/// The reverse lookup that goes with `swap_removed(list, reverse[token])`.
pub open spec fn reverse_removed(list: Seq<u32>, reverse: Map<u32, u32>, token: u32) -> Map<
    u32,
    u32,
>
    recommends
        reverse.contains_key(token),
        list.len() > 0,
{
    reverse.insert(list.last(), reverse[token]).remove(token)
}

/// The list that is left when `token` is removed from `list` by moving the
/// last token into its place.
pub open spec fn without(list: Seq<u32>, token: u32) -> Seq<u32> {
    swap_removed(list, list.index_of(token))
}

/// Removing a listed token from a list without repetitions leaves a list
/// without repetitions that is one shorter and holds exactly the other tokens.
pub proof fn lemma_without(list: Seq<u32>, token: u32)
    requires
        list.no_duplicates(),
        list.contains(token),
    ensures
        without(list, token).no_duplicates(),
        without(list, token).len() == list.len() - 1,
        forall|t: u32| #[trigger]
            without(list, token).contains(t) <==> list.contains(t) && t != token,
{
    let p = list.index_of(token);
    let rest = without(list, token);
    let n = list.len() as int;
    assert(0 <= p < n && list[p] == token);
    assert forall|q: int| 0 <= q < n - 1 implies #[trigger] rest[q] == (if q == p {
        list[n - 1]
    } else {
        list[q]
    }) by {}
    assert forall|t: u32| #[trigger] rest.contains(t) <==> list.contains(t) && t != token by {
        if rest.contains(t) {
            let q = choose|q: int| 0 <= q < rest.len() && rest[q] == t;
            assert(rest[q] == t);
            if q == p {
                assert(list[n - 1] == t);
            } else {
                assert(list[q] == t);
            }
        }
        if list.contains(t) && t != token {
            let k = choose|k: int| 0 <= k < list.len() && list[k] == t;
            if k == n - 1 {
                assert(p != n - 1);
                assert(rest[p] == t);
            } else {
                assert(rest[k] == t);
            }
        }
    }
}

/// `order` lists tokens of `list`, each once, and as many as `list` holds.
/// Where `list` has no repetitions, the two then hold the same tokens.
pub open spec fn rearranges(order: Seq<u32>, list: Seq<u32>) -> bool {
    &&& order.no_duplicates()
    &&& order.len() == list.len()
    &&& forall|t: u32| #[trigger] order.contains(t) ==> list.contains(t)
}

/// A rearrangement of a list without repetitions holds exactly its tokens.
pub proof fn lemma_rearranges(order: Seq<u32>, list: Seq<u32>)
    requires
        list.no_duplicates(),
        rearranges(order, list),
    ensures
        forall|t: u32| #[trigger] order.contains(t) <==> list.contains(t),
{
    order.unique_seq_to_set();
    list.unique_seq_to_set();
    assert(order.to_set().subset_of(list.to_set())) by {
        assert forall|t: u32| order.to_set().contains(t) implies list.to_set().contains(t) by {
            assert(order.contains(t));
        }
    }
    vstd::seq_lib::seq_to_set_is_finite(order);
    vstd::seq_lib::seq_to_set_is_finite(list);
    vstd::set_lib::lemma_subset_equality(order.to_set(), list.to_set());
    assert forall|t: u32| #[trigger] order.contains(t) <==> list.contains(t) by {
        assert(order.to_set().contains(t) <==> list.to_set().contains(t));
    }
}

/// A list and a reverse lookup agree: every listed token is looked up to its
/// own position, and every lookup leads to a position that holds the token.
pub open spec fn coherent(list: Seq<u32>, reverse: Map<u32, u32>) -> bool {
    &&& forall|p: int|
        0 <= p < list.len() ==> reverse.contains_key(#[trigger] list[p]) && reverse[list[p]] == p
    &&& forall|t: u32| #[trigger]
        reverse.contains_key(t) ==> reverse[t] < list.len() && list[reverse[t] as int] == t
}

/// In a coherent index the reverse lookup knows exactly the listed tokens,
/// and no token is listed twice.
pub proof fn lemma_coherent_membership(list: Seq<u32>, reverse: Map<u32, u32>)
    requires
        coherent(list, reverse),
    ensures
        list.no_duplicates(),
        forall|t: u32| list.contains(t) <==> reverse.contains_key(t),
        forall|t: u32| #[trigger] reverse.contains_key(t) ==> list.index_of(t) == reverse[t],
{
    assert forall|i: int, j: int| 0 <= i < list.len() && 0 <= j < list.len() && i != j implies list[i]
        != list[j] by {
        assert(reverse[list[i]] == i);
        assert(reverse[list[j]] == j);
    }
    assert forall|t: u32| list.contains(t) <==> reverse.contains_key(t) by {
        if reverse.contains_key(t) {
            assert(list[reverse[t] as int] == t);
        }
        if list.contains(t) {
            let p = choose|p: int| 0 <= p < list.len() && list[p] == t;
            assert(reverse.contains_key(list[p]));
        }
    }
    assert forall|t: u32| #[trigger] reverse.contains_key(t) implies list.index_of(t) == reverse[t] by {
        assert(list[reverse[t] as int] == t);
        let q = list.index_of(t);
        assert(0 <= q < list.len() && list[q] == t);
        assert(reverse[list[q]] == q);
    }
}

/// Appending a token that is not yet listed keeps an index coherent.
pub proof fn lemma_append(list: Seq<u32>, reverse: Map<u32, u32>, token: u32)
    requires
        coherent(list, reverse),
        !reverse.contains_key(token),
        list.len() <= u32::MAX,
    ensures
        coherent(list.push(token), reverse.insert(token, list.len() as u32)),
{
    let list2 = list.push(token);
    let reverse2 = reverse.insert(token, list.len() as u32);
    assert forall|p: int| 0 <= p < list2.len() implies reverse2.contains_key(#[trigger] list2[p])
        && reverse2[list2[p]] == p by {
        if p < list.len() {
            assert(list2[p] == list[p]);
            assert(reverse.contains_key(list[p]));
        }
    }
    assert forall|t: u32| #[trigger] reverse2.contains_key(t) implies reverse2[t] < list2.len()
        && list2[reverse2[t] as int] == t by {
        if t != token {
            assert(reverse.contains_key(t));
        }
    }
}

/// Removing a listed token by swapping the last token into its place leaves
/// an index that is one shorter and still coherent, in which the removed
/// token is neither listed nor looked up, and every other token is listed
/// exactly if it was before.
pub proof fn lemma_swap_remove(list: Seq<u32>, reverse: Map<u32, u32>, token: u32)
    requires
        coherent(list, reverse),
        reverse.contains_key(token),
    ensures
        list.len() > 0,
        swap_removed(list, reverse[token] as int).len() == list.len() - 1,
        coherent(
            swap_removed(list, reverse[token] as int),
            reverse_removed(list, reverse, token),
        ),
        !swap_removed(list, reverse[token] as int).contains(token),
        !reverse_removed(list, reverse, token).contains_key(token),
        forall|t: u32|
            t != token ==> (swap_removed(list, reverse[token] as int).contains(t)
                <==> list.contains(t)),
        forall|t: u32|
            t != token ==> (reverse_removed(list, reverse, token).contains_key(t)
                <==> reverse.contains_key(t)),
{
    let p = reverse[token] as int;
    let last = list.last();
    let list2 = swap_removed(list, p);
    let reverse2 = reverse_removed(list, reverse, token);
    lemma_coherent_membership(list, reverse);
    assert(list[p] == token);
    assert(reverse.contains_key(list[list.len() - 1]));
    assert forall|q: int| 0 <= q < list2.len() implies reverse2.contains_key(#[trigger] list2[q])
        && reverse2[list2[q]] == q by {
        if q == p {
            assert(list2[q] == last);
            assert(last != token);
        } else {
            assert(list2[q] == list[q]);
            assert(reverse.contains_key(list[q]));
            assert(list[q] != token);
            assert(list[q] != last);
        }
    }
    assert forall|t: u32| #[trigger] reverse2.contains_key(t) implies reverse2[t] < list2.len()
        && list2[reverse2[t] as int] == t by {
        if t == last {
            assert(reverse2[t] == p);
        } else {
            assert(reverse.contains_key(t));
            assert(list[reverse[t] as int] == t);
        }
    }
    lemma_coherent_membership(list2, reverse2);
    assert forall|t: u32| t != token implies (list2.contains(t) <==> list.contains(t)) by {
        assert(reverse2.contains_key(t) <==> reverse.contains_key(t));
    }
}

/// A dense list of token ids with a reverse lookup.
pub struct TokenIndex {
    tokens: Vec<u32>,
    positions: HashMap<u32, u32>,
}

impl TokenIndex {
    /// The listed tokens, in enumeration order.
    pub closed spec fn view(&self) -> Seq<u32> {
        self.tokens@
    }

    /// The reverse lookup: the position of each listed token.
    pub closed spec fn reverse(&self) -> Map<u32, u32> {
        self.positions@
    }

    /// The list and the reverse lookup agree, and positions fit their width.
    pub open spec fn wf(&self) -> bool {
        &&& coherent(self@, self.reverse())
        &&& self@.len() <= u32::MAX
    }

    /// An index that lists nothing.
    pub fn new() -> (index: TokenIndex)
        ensures
            index.wf(),
            index@ == Seq::<u32>::empty(),
            index.reverse() == Map::<u32, u32>::empty(),
    {
        TokenIndex { tokens: Vec::new(), positions: HashMap::new() }
    }

    /// The index of the given tokens in the given order, if no token is
    /// given twice and the positions fit their width.
    pub fn from_list(tokens: &Vec<u32>) -> (index: Option<TokenIndex>)
        ensures
            index is Some <==> tokens@.no_duplicates() && tokens@.len() <= u32::MAX,
            index matches Some(ix) ==> ix.wf() && ix@ == tokens@,
    {
        if tokens.len() > u32::MAX as usize {
            return None;
        }
        let mut index = TokenIndex::new();
        let mut i: usize = 0;
        while i < tokens.len()
            invariant
                i <= tokens@.len() <= u32::MAX,
                index.wf(),
                index@ == tokens@.subrange(0, i as int),
            decreases tokens@.len() - i,
        {
            let token: u32 = tokens[i];
            if !index.insert(token) {
                proof {
                    let j = choose|j: int| 0 <= j < index@.len() && index@[j] == token;
                    assert(tokens@[j] == tokens@[i as int]);
                }
                return None;
            }
            assert(index@ =~= tokens@.subrange(0, i + 1));
            i = i + 1;
        }
        proof {
            assert(index@ =~= tokens@);
            lemma_coherent_membership(index@, index.reverse());
        }
        Some(index)
    }

    /// The number of listed tokens.
    pub fn len(&self) -> (n: u32)
        requires
            self.wf(),
        ensures
            n == self@.len(),
    {
        self.tokens.len() as u32
    }

    /// The token at a position, or nothing past the end of the list.
    pub fn get(&self, position: u32) -> (token: Option<u32>)
        ensures
            token == (if position < self@.len() {
                Some(self@[position as int])
            } else {
                None
            }),
    {
        if (position as usize) < self.tokens.len() {
            Some(self.tokens[position as usize])
        } else {
            None
        }
    }

    /// The position of a token, if it is listed.
    pub fn position(&self, token: u32) -> (position: Option<u32>)
        requires
            self.wf(),
        ensures
            position == (if self@.contains(token) {
                Some(self.reverse()[token])
            } else {
                None
            }),
            self@.contains(token) <==> self.reverse().contains_key(token),
            position matches Some(p) ==> p < self@.len() && self@[p as int] == token,
    {
        proof {
            lemma_coherent_membership(self@, self.reverse());
        }
        match self.positions.get(&token) {
            Some(p) => Some(*p),
            None => None,
        }
    }

    /// Whether a token is listed.
    pub fn contains(&self, token: u32) -> (listed: bool)
        requires
            self.wf(),
        ensures
            listed == self@.contains(token),
    {
        proof {
            lemma_coherent_membership(self@, self.reverse());
        }
        self.positions.contains_key(&token)
    }

    /// Appends a token and records its position. A token that is already
    /// listed stays where it is, and the answer is `false`.
    pub fn insert(&mut self, token: u32) -> (inserted: bool)
        requires
            old(self).wf(),
            old(self)@.len() < u32::MAX,
        ensures
            final(self).wf(),
            inserted == !old(self)@.contains(token),
            inserted ==> final(self)@ == old(self)@.push(token) && final(self).reverse() == old(
                self,
            ).reverse().insert(token, old(self)@.len() as u32),
            !inserted ==> final(self)@ == old(self)@ && final(self).reverse() == old(
                self,
            ).reverse(),
    {
        proof {
            lemma_coherent_membership(self@, self.reverse());
        }
        if self.positions.contains_key(&token) {
            return false;
        }
        let position: u32 = self.tokens.len() as u32;
        proof {
            lemma_append(self@, self.reverse(), token);
        }
        self.tokens.push(token);
        self.positions.insert(token, position);
        true
    }

    /// Removes a token by moving the last token into its position, giving
    /// that token its new position and forgetting the removed one. A token
    /// that is not listed changes nothing, and the answer is `false`.
    pub fn remove(&mut self, token: u32) -> (removed: bool)
        requires
            old(self).wf(),
        ensures
            final(self).wf(),
            removed == old(self)@.contains(token),
            removed ==> final(self)@ == swap_removed(
                old(self)@,
                old(self).reverse()[token] as int,
            ) && final(self).reverse() == reverse_removed(
                old(self)@,
                old(self).reverse(),
                token,
            ),
            !removed ==> final(self)@ == old(self)@ && final(self).reverse() == old(
                self,
            ).reverse(),
            removed ==> final(self)@ == without(old(self)@, token),
            removed ==> final(self)@.len() == old(self)@.len() - 1,
            !final(self)@.contains(token),
            !final(self).reverse().contains_key(token),
            forall|t: u32| t != token ==> (final(self)@.contains(t) <==> old(self)@.contains(t)),
    {
        proof {
            lemma_coherent_membership(self@, self.reverse());
        }
        let position: u32 = match self.positions.get(&token) {
            Some(p) => *p,
            None => {
                return false;
            },
        };
        proof {
            lemma_swap_remove(self@, self.reverse(), token);
        }
        let last: u32 = self.tokens[self.tokens.len() - 1];
        self.tokens.swap_remove(position as usize);
        self.positions.insert(last, position);
        self.positions.remove(&token);
        true
    }
}

} // verus!
