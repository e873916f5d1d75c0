//! A side's ledger: who staked how much, in the order the bets came in.
use vstd::prelude::*;

use crate::player::PlayerUuid;
use crate::Currency;

verus! {

/// Whether `p` has an entry in ledger `l`.
pub open spec fn has_player(l: Seq<(PlayerUuid, Currency)>, p: PlayerUuid) -> bool {
    exists|i: int| 0 <= i < l.len() && l[i].0 == p
}

/// No player has two entries in `l`.
pub open spec fn unique_players(l: Seq<(PlayerUuid, Currency)>) -> bool {
    forall|i: int, j: int|
        0 <= i < l.len() && 0 <= j < l.len() && #[trigger] l[i].0 == #[trigger] l[j].0 ==> i == j
}

/// The position of `p`'s entry in `l`, when it has one.
pub open spec fn index_of(l: Seq<(PlayerUuid, Currency)>, p: PlayerUuid) -> int {
    choose|i: int| 0 <= i < l.len() && l[i].0 == p
}

/// What `p` has staked in `l`: zero without an entry.
pub open spec fn stake_of(l: Seq<(PlayerUuid, Currency)>, p: PlayerUuid) -> int {
    if has_player(l, p) {
        l[index_of(l, p)].1 as int
    } else {
        0
    }
}

/// The sum of all stakes in `l`: its pot.
pub open spec fn total(l: Seq<(PlayerUuid, Currency)>) -> int
    decreases l.len(),
{
    if l.len() == 0 {
        0
    } else {
        total(l.drop_last()) + l.last().1
    }
}

/// `l` with `p`'s entry raised by `amount`, clamped at the largest amount.
pub open spec fn raised(l: Seq<(PlayerUuid, Currency)>, p: PlayerUuid, amount: Currency) -> Seq<
    (PlayerUuid, Currency),
> {
    let i = index_of(l, p);
    l.update(i, (p, l[i].1.saturating_add(amount)))
}

/// In a ledger without repeated players, the entry of `p` is the one at `i`.
pub proof fn lemma_index_of_unique(l: Seq<(PlayerUuid, Currency)>, p: PlayerUuid, i: int)
    requires
        unique_players(l),
        0 <= i < l.len(),
        l[i].0 == p,
    ensures
        has_player(l, p),
        index_of(l, p) == i,
{
    assert(has_player(l, p));
}

/// Stakes are never negative, so a pot grows along the ledger.
pub proof fn lemma_total_prefix(l: Seq<(PlayerUuid, Currency)>, i: int)
    requires
        0 <= i <= l.len(),
    ensures
        0 <= total(l.subrange(0, i)) <= total(l),
    decreases l.len() - i,
{
    if i < l.len() {
        lemma_total_prefix(l, i + 1);
        lemma_total_nonneg(l.subrange(0, i));
        assert(l.subrange(0, i + 1).drop_last() =~= l.subrange(0, i));
        assert(total(l.subrange(0, i + 1)) == total(l.subrange(0, i)) + l[i].1);
    } else {
        assert(l.subrange(0, i) =~= l);
        lemma_total_nonneg(l);
    }
}

/// A pot is never negative.
pub proof fn lemma_total_nonneg(l: Seq<(PlayerUuid, Currency)>)
    ensures
        total(l) >= 0,
    decreases l.len(),
{
    if l.len() > 0 {
        lemma_total_nonneg(l.drop_last());
    }
}

/// Each single stake is at most the pot of its ledger.
pub proof fn lemma_stake_le_total(l: Seq<(PlayerUuid, Currency)>, i: int)
    requires
        0 <= i < l.len(),
    ensures
        l[i].1 <= total(l),
    decreases l.len(),
{
    lemma_total_nonneg(l.drop_last());
    if i < l.len() - 1 {
        lemma_stake_le_total(l.drop_last(), i);
    }
}

/// The position of `p`'s entry in `l`, or `None` when it has none.
pub fn find_player(l: &Vec<(PlayerUuid, Currency)>, p: PlayerUuid) -> (r: Option<usize>)
    ensures
        match r {
            Some(i) => i < l@.len() && l@[i as int].0 == p,
            None => !has_player(l@, p),
        },
{
    let mut i: usize = 0;
    while i < l.len()
        invariant
            i <= l@.len(),
            forall|j: int| 0 <= j < i ==> l@[j].0 != p,
        decreases l@.len() - i,
    {
        if l[i].0 == p {
            return Some(i);
        }
        i = i + 1;
    }
    None
}

/// The pot of `l`.
pub fn sum_stakes(l: &Vec<(PlayerUuid, Currency)>) -> (r: Currency)
    requires
        total(l@) <= Currency::MAX,
    ensures
        r == total(l@),
{
    let mut sum: Currency = 0;
    let mut i: usize = 0;
    while i < l.len()
        invariant
            i <= l@.len(),
            sum == total(l@.subrange(0, i as int)),
            total(l@) <= Currency::MAX,
        decreases l@.len() - i,
    {
        proof {
            lemma_total_prefix(l@, i + 1);
            assert(l@.subrange(0, i + 1).drop_last() =~= l@.subrange(0, i as int));
        }
        sum = sum + l[i].1;
        i = i + 1;
    }
    proof {
        assert(l@.subrange(0, i as int) =~= l@);
    }
    sum
}

} // verus!
