//! The capability that a player's account offers to a pool.
use vstd::prelude::*;

use crate::ids::random_uuid;
use crate::set2::{
    balance_after, bet_or_raise_result, bet_result, ledger_after_bet, ledger_after_bet_or_raise,
    ledger_after_raise, raise_result, BetError, Set2, Set2Side,
};
use crate::Currency;

verus! {

/// The stable, unique identity of a player, used as the ledger key.
#[derive(Debug, Clone, Copy, PartialEq, Eq, Structural, PartialOrd, Ord, Hash)]
pub struct PlayerUuid(pub u128);

/// The player that makes bets.
pub trait Player {
    /// The player's display name.
    spec fn spec_name(&self) -> Seq<char>;

    /// The player's identity.
    spec fn spec_uuid(&self) -> PlayerUuid;

    /// The player's account balance.
    spec fn spec_balance(&self) -> Currency;

    /// The player's name.
    fn name(&self) -> (r: &String)
        ensures
            r@ == self.spec_name(),
    ;

    /// The player's UUID.
    fn uuid(&self) -> (r: &PlayerUuid)
        ensures
            *r == self.spec_uuid(),
    ;

    /// The player's account balance.
    fn balance(&self) -> (r: Currency)
        ensures
            r == self.spec_balance(),
    ;

    /// Mutable access to the player's account balance; the name and the
    /// identity stay as they are.
    fn balance_mut(&mut self) -> (r: &mut Currency)
        ensures
            *r == old(self).spec_balance(),
            final(self).spec_balance() == *final(r),
            final(self).spec_uuid() == old(self).spec_uuid(),
            final(self).spec_name() == old(self).spec_name(),
    ;
}

/// A plain account: a name, an identity and a balance.
#[derive(Debug, Clone, PartialEq, Eq, PartialOrd, Ord)]
pub struct BasicPlayer {
    pub name: String,
    pub uuid: PlayerUuid,
    pub balance: Currency,
}

impl BasicPlayer {
    /// A player with a fresh random identity.
    pub fn new(name: String, balance: Currency) -> (r: Self)
        ensures
            r.name@ == name@,
            r.balance == balance,
    {
        Self { name, uuid: PlayerUuid(random_uuid()), balance }
    }
}

impl Player for BasicPlayer {
    open spec fn spec_name(&self) -> Seq<char> {
        self.name@
    }

    open spec fn spec_uuid(&self) -> PlayerUuid {
        self.uuid
    }

    open spec fn spec_balance(&self) -> Currency {
        self.balance
    }

    fn name(&self) -> (r: &String) {
        &self.name
    }

    fn uuid(&self) -> (r: &PlayerUuid) {
        &self.uuid
    }

    fn balance(&self) -> (r: Currency) {
        self.balance
    }

    fn balance_mut(&mut self) -> (r: &mut Currency) {
        &mut self.balance
    }
}

/// The pool's operations with the player first; every [`Player`] has them.
pub trait PlayerBets: Player + Sized {
    /// [`bet`](Set2::bet) as player.
    fn bet(&mut self, set2: &mut Set2, side: Set2Side, amount: Currency) -> (r: Result<
        (),
        BetError,
    >)
        requires
            old(set2)@.well_formed(),
        ensures
            final(set2)@.well_formed(),
            r == bet_result(
                old(set2)@.bets(side),
                old(self).spec_uuid(),
                old(self).spec_balance(),
                amount,
            ),
            final(set2)@ == old(set2)@.with_bets(
                side,
                ledger_after_bet(
                    old(set2)@.bets(side),
                    old(self).spec_uuid(),
                    old(self).spec_balance(),
                    amount,
                ),
            ),
            final(self).spec_balance() == balance_after(r, old(self).spec_balance(), amount),
            final(self).spec_uuid() == old(self).spec_uuid(),
            final(self).spec_name() == old(self).spec_name(),
            r is Err ==> *final(self) == *old(self),
    ;

    /// [`raise`](Set2::raise) as player.
    fn raise(&mut self, set2: &mut Set2, side: Set2Side, amount: Currency) -> (r: Result<
        (),
        BetError,
    >)
        requires
            old(set2)@.well_formed(),
        ensures
            final(set2)@.well_formed(),
            r == raise_result(
                old(set2)@.bets(side),
                old(self).spec_uuid(),
                old(self).spec_balance(),
                amount,
            ),
            final(set2)@ == old(set2)@.with_bets(
                side,
                ledger_after_raise(
                    old(set2)@.bets(side),
                    old(self).spec_uuid(),
                    old(self).spec_balance(),
                    amount,
                ),
            ),
            final(self).spec_balance() == balance_after(r, old(self).spec_balance(), amount),
            final(self).spec_uuid() == old(self).spec_uuid(),
            final(self).spec_name() == old(self).spec_name(),
            r is Err ==> *final(self) == *old(self),
    ;

    /// [`bet_or_raise`](Set2::bet_or_raise) as player.
    fn bet_or_raise(&mut self, set2: &mut Set2, side: Set2Side, amount: Currency) -> (r: Result<
        (),
        BetError,
    >)
        requires
            old(set2)@.well_formed(),
        ensures
            final(set2)@.well_formed(),
            r == bet_or_raise_result(
                old(set2)@.bets(side),
                old(self).spec_uuid(),
                old(self).spec_balance(),
                amount,
            ),
            final(set2)@ == old(set2)@.with_bets(
                side,
                ledger_after_bet_or_raise(
                    old(set2)@.bets(side),
                    old(self).spec_uuid(),
                    old(self).spec_balance(),
                    amount,
                ),
            ),
            final(self).spec_balance() == balance_after(r, old(self).spec_balance(), amount),
            final(self).spec_uuid() == old(self).spec_uuid(),
            final(self).spec_name() == old(self).spec_name(),
            r is Err ==> *final(self) == *old(self),
    ;
}

impl<P: Player> PlayerBets for P {
    fn bet(&mut self, set2: &mut Set2, side: Set2Side, amount: Currency) -> (r: Result<
        (),
        BetError,
    >) {
        set2.bet(self, side, amount)
    }

    fn raise(&mut self, set2: &mut Set2, side: Set2Side, amount: Currency) -> (r: Result<
        (),
        BetError,
    >) {
        set2.raise(self, side, amount)
    }

    fn bet_or_raise(&mut self, set2: &mut Set2, side: Set2Side, amount: Currency) -> (r: Result<
        (),
        BetError,
    >) {
        set2.bet_or_raise(self, side, amount)
    }
}

} // verus!
