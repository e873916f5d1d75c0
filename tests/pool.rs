use bet_lib::player::{BasicPlayer, Player, PlayerBets, PlayerUuid};
use bet_lib::set2::{BetError, Set2, Set2Side};
use bet_lib::Currency;

fn new_set() -> Set2 {
    Set2::new(PlayerUuid(7), "Does the bus come on time?".into())
}

fn named(name: &str, uuid: u128, balance: Currency) -> BasicPlayer {
    BasicPlayer { name: name.into(), uuid: PlayerUuid(uuid), balance }
}

fn amount_of(payout: &[(PlayerUuid, Currency)], p: &BasicPlayer) -> Option<Currency> {
    payout.iter().find(|(u, _)| *u == p.uuid).map(|(_, a)| *a)
}

#[test]
fn second_bet_on_same_side_is_refused() {
    let mut set = new_set();
    let mut a = named("A", 1, 100);
    assert_eq!(set.bet(&mut a, Set2Side::Side1, 30), Ok(()));
    assert_eq!(set.bet(&mut a, Set2Side::Side1, 10), Err(BetError::PlayerExists));
    assert_eq!(a.balance(), 70);
    assert_eq!(set.side_1_pot(), 30);
}

#[test]
fn second_bet_beyond_balance_reports_balance_first() {
    let mut set = new_set();
    let mut a = named("A", 1, 100);
    set.bet(&mut a, Set2Side::Side1, 60).unwrap();
    assert_eq!(set.bet(&mut a, Set2Side::Side1, 50), Err(BetError::InsufficientBalance));
    assert_eq!(a.balance(), 40);
}

#[test]
fn raise_on_unbet_side_is_refused() {
    let mut set = new_set();
    let mut a = named("A", 1, 100);
    set.bet(&mut a, Set2Side::Side1, 30).unwrap();
    assert_eq!(set.raise(&mut a, Set2Side::Side2, 10), Err(BetError::PlayerNotExists));
    assert_eq!(a.balance(), 70);
    assert_eq!(set.side_2_pot(), 0);
    assert!(!set.side_has_player(&a.uuid, Set2Side::Side2));
}

#[test]
fn raise_adds_to_stake() {
    let mut set = new_set();
    let mut a = named("A", 1, 100);
    set.bet(&mut a, Set2Side::Side2, 30).unwrap();
    assert_eq!(set.raise(&mut a, Set2Side::Side2, 20), Ok(()));
    assert_eq!(a.balance(), 50);
    assert_eq!(set.side_2_pot(), 50);
    assert_eq!(set.raise(&mut a, Set2Side::Side2, 51), Err(BetError::InsufficientBalance));
    assert_eq!(set.side_2_pot(), 50);
}

#[test]
fn raise_clamps_at_largest_amount() {
    let mut set = new_set();
    let mut a = named("A", 1, Currency::MAX);
    set.bet(&mut a, Set2Side::Side1, Currency::MAX).unwrap();
    assert_eq!(a.balance(), 0);
    a.balance = 10;
    assert_eq!(set.raise(&mut a, Set2Side::Side1, 10), Ok(()));
    assert_eq!(a.balance(), 0);
    assert_eq!(set.side_1_pot(), Currency::MAX);
}

#[test]
fn bet_or_raise_twice_accumulates() {
    let mut set = new_set();
    let mut a = named("A", 1, 100);
    assert_eq!(set.bet_or_raise(&mut a, Set2Side::Side1, 30), Ok(()));
    assert_eq!(set.bet_or_raise(&mut a, Set2Side::Side1, 45), Ok(()));
    assert_eq!(a.balance(), 25);
    assert_eq!(set.side_1_pot(), 75);
    assert_eq!(set.side_2_pot(), 0);
    assert_eq!(set.bet_or_raise(&mut a, Set2Side::Side1, 26), Err(BetError::InsufficientBalance));
    assert_eq!(a.balance(), 25);
}

#[test]
fn bets_through_player() {
    let mut set = new_set();
    let mut a = named("A", 1, 100);
    assert_eq!(a.bet(&mut set, Set2Side::Side2, 40), Ok(()));
    assert_eq!(PlayerBets::raise(&mut a, &mut set, Set2Side::Side2, 10), Ok(()));
    assert_eq!(a.bet_or_raise(&mut set, Set2Side::Side1, 5), Ok(()));
    assert_eq!(a.balance(), 45);
    assert_eq!(set.pot_size(), 55);
    assert!(set.contains_player(&a.uuid));
}

#[test]
fn membership_queries() {
    let mut set = new_set();
    let mut a = named("A", 1, 100);
    let b = named("B", 2, 100);
    set.bet(&mut a, Set2Side::Side2, 1).unwrap();
    assert!(set.side_has_player(&a.uuid, Set2Side::Side2));
    assert!(!set.side_has_player(&a.uuid, Set2Side::Side1));
    assert!(set.contains_player(&a.uuid));
    assert!(!set.contains_player(&b.uuid));
}

#[test]
fn players_with_same_name_are_kept_apart() {
    let mut set = new_set();
    let mut a = named("Sam", 1, 100);
    let mut b = named("Sam", 2, 100);
    assert_eq!(set.bet(&mut a, Set2Side::Side1, 10), Ok(()));
    assert_eq!(set.bet(&mut b, Set2Side::Side1, 20), Ok(()));
    assert_eq!(set.side_1_pot(), 30);
}

#[test]
fn pots_add_up() {
    let mut set = new_set();
    let mut a = named("A", 1, 100);
    let mut b = named("B", 2, 100);
    let mut c = named("C", 3, 100);
    set.bet(&mut a, Set2Side::Side1, 12).unwrap();
    set.bet(&mut b, Set2Side::Side1, 30).unwrap();
    set.bet(&mut c, Set2Side::Side2, 7).unwrap();
    set.bet(&mut a, Set2Side::Side2, 1).unwrap();
    assert_eq!(set.side_1_pot(), 42);
    assert_eq!(set.side_2_pot(), 8);
    assert_eq!(set.pot_size(), 50);
}

#[test]
fn empty_pool_has_empty_pots_and_payout() {
    let set = new_set();
    assert_eq!(set.pot_size(), 0);
    assert!(set.payout(Set2Side::Side1).is_empty());
    assert!(set.payout(Set2Side::Side2).is_empty());
}

#[test]
fn winners_recover_stake_when_losing_side_is_empty() {
    let mut set = new_set();
    let mut a = named("A", 1, 100);
    let mut b = named("B", 2, 100);
    set.bet(&mut a, Set2Side::Side1, 40).unwrap();
    set.bet(&mut b, Set2Side::Side1, 60).unwrap();
    let payout = set.payout(Set2Side::Side1);
    assert_eq!(payout.len(), 2);
    assert_eq!(amount_of(&payout, &a), Some(40));
    assert_eq!(amount_of(&payout, &b), Some(60));
}

#[test]
fn solo_winner_recovers_stake_when_losing_side_is_empty() {
    let mut set = new_set();
    let mut a = named("A", 1, 100);
    set.bet(&mut a, Set2Side::Side2, 40).unwrap();
    assert_eq!(set.payout(Set2Side::Side2), vec![(a.uuid, 40)]);
}

#[test]
fn nobody_is_paid_when_winning_side_is_empty() {
    let mut set = new_set();
    let mut a = named("A", 1, 100);
    set.bet(&mut a, Set2Side::Side2, 40).unwrap();
    assert!(set.payout(Set2Side::Side1).is_empty());
}

#[test]
fn solo_underdog_scenario() {
    let mut set = new_set();
    let mut a = named("A", 1, 100);
    let mut b = named("B", 2, 100);
    let mut c = named("C", 3, 100);
    set.bet(&mut a, Set2Side::Side1, 50).unwrap();
    set.bet(&mut b, Set2Side::Side2, 50).unwrap();
    set.bet(&mut c, Set2Side::Side2, 50).unwrap();
    assert_eq!(
        set.payout(Set2Side::Side1),
        vec![(a.uuid, 100), (b.uuid, 25), (c.uuid, 25)]
    );
}

#[test]
fn competitive_winners_scenario() {
    let mut set = new_set();
    let mut a = named("A", 1, 100);
    let mut b = named("B", 2, 100);
    let mut c = named("C", 3, 100);
    let mut d = named("D", 4, 100);
    set.bet(&mut a, Set2Side::Side1, 25).unwrap();
    set.bet(&mut b, Set2Side::Side1, 50).unwrap();
    set.bet(&mut c, Set2Side::Side2, 50).unwrap();
    set.bet(&mut d, Set2Side::Side2, 100).unwrap();
    assert_eq!(set.payout(Set2Side::Side1), vec![(a.uuid, 75), (b.uuid, 150)]);
}

#[test]
fn favored_solo_winner_scenario() {
    let mut set = new_set();
    let mut a = named("A", 1, 100);
    let mut b = named("B", 2, 100);
    let mut c = named("C", 3, 100);
    set.bet(&mut a, Set2Side::Side1, 50).unwrap();
    set.bet(&mut b, Set2Side::Side2, 10).unwrap();
    set.bet(&mut c, Set2Side::Side2, 10).unwrap();
    assert_eq!(set.payout(Set2Side::Side1), vec![(a.uuid, 70)]);
}

#[test]
fn solo_winner_with_equal_pots_takes_all() {
    let mut set = new_set();
    let mut a = named("A", 1, 100);
    let mut b = named("B", 2, 100);
    let mut c = named("C", 3, 100);
    set.bet(&mut a, Set2Side::Side1, 40).unwrap();
    set.bet(&mut b, Set2Side::Side2, 15).unwrap();
    set.bet(&mut c, Set2Side::Side2, 25).unwrap();
    assert_eq!(set.payout(Set2Side::Side1), vec![(a.uuid, 80)]);
}

#[test]
fn half_units_round_up() {
    let mut set = new_set();
    let mut a = named("A", 1, 100);
    let mut b = named("B", 2, 100);
    let mut c = named("C", 3, 100);
    set.bet(&mut a, Set2Side::Side1, 1).unwrap();
    set.bet(&mut b, Set2Side::Side1, 1).unwrap();
    set.bet(&mut c, Set2Side::Side2, 1).unwrap();
    // Each winner's share is one half.
    assert_eq!(set.payout(Set2Side::Side1), vec![(a.uuid, 2), (b.uuid, 2)]);
}

#[test]
fn solo_underdog_on_both_sides_gets_both_amounts() {
    let mut set = new_set();
    let mut a = named("A", 1, 100);
    let mut b = named("B", 2, 100);
    set.bet(&mut a, Set2Side::Side1, 10).unwrap();
    set.bet(&mut a, Set2Side::Side2, 50).unwrap();
    set.bet(&mut b, Set2Side::Side2, 50).unwrap();
    // Winnings 10 + 10; refunds 50 * 0.9 = 45 each.
    assert_eq!(set.payout(Set2Side::Side1), vec![(a.uuid, 65), (b.uuid, 45)]);
}

#[test]
fn zero_stake_winners_get_nothing() {
    let mut set = new_set();
    let mut a = named("A", 1, 100);
    let mut b = named("B", 2, 100);
    let mut c = named("C", 3, 100);
    set.bet(&mut a, Set2Side::Side1, 0).unwrap();
    set.bet(&mut b, Set2Side::Side1, 0).unwrap();
    set.bet(&mut c, Set2Side::Side2, 30).unwrap();
    assert_eq!(set.payout(Set2Side::Side1), vec![(a.uuid, 0), (b.uuid, 0)]);
}

#[test]
fn zero_stake_solo_winner_refunds_losers_in_full() {
    let mut set = new_set();
    let mut a = named("A", 1, 100);
    let mut b = named("B", 2, 100);
    set.bet(&mut a, Set2Side::Side1, 0).unwrap();
    set.bet(&mut b, Set2Side::Side2, 30).unwrap();
    assert_eq!(set.payout(Set2Side::Side1), vec![(a.uuid, 0), (b.uuid, 30)]);
}

#[test]
fn shared_payout_stays_within_one_unit_per_winner() {
    let mut set = new_set();
    let mut a = named("A", 1, 100);
    let mut b = named("B", 2, 100);
    let mut c = named("C", 3, 100);
    let mut d = named("D", 4, 100);
    set.bet(&mut a, Set2Side::Side1, 7).unwrap();
    set.bet(&mut b, Set2Side::Side1, 11).unwrap();
    set.bet(&mut c, Set2Side::Side1, 13).unwrap();
    set.bet(&mut d, Set2Side::Side2, 29).unwrap();
    let payout = set.payout(Set2Side::Side1);
    let paid: i128 = payout.iter().map(|(_, x)| *x as i128).sum();
    let pot = set.pot_size() as i128;
    assert_eq!(payout.len(), 3);
    assert!((paid - pot).abs() <= 3);
    // 7 + round(6.548) = 14, 11 + round(10.29) = 21, 13 + round(12.16) = 25
    assert_eq!(payout, vec![(a.uuid, 14), (b.uuid, 21), (c.uuid, 25)]);
}

#[test]
fn payout_is_idempotent() {
    let mut set = new_set();
    let mut a = named("A", 1, 100);
    let mut b = named("B", 2, 100);
    let mut c = named("C", 3, 100);
    set.bet(&mut a, Set2Side::Side1, 20).unwrap();
    set.bet(&mut b, Set2Side::Side2, 30).unwrap();
    set.bet(&mut c, Set2Side::Side2, 50).unwrap();
    let first = set.payout(Set2Side::Side1);
    let second = set.payout(Set2Side::Side1);
    assert_eq!(first, second);
    assert_eq!(set.pot_size(), 100);
}

#[test]
fn new_identities_are_random_version_four() {
    let a = BasicPlayer::new("A".into(), 5);
    let b = BasicPlayer::new("A".into(), 5);
    assert_ne!(a.uuid, b.uuid);
    assert_eq!(a.uuid.0 & 0xF000_C000_0000_0000_0000, 0x4000_8000_0000_0000_0000);
    assert_eq!(a.name(), "A");
    assert_eq!(a.balance(), 5);
    let s1 = Set2::new(a.uuid, "x".into());
    let s2 = Set2::new(a.uuid, "x".into());
    assert_ne!(s1, s2);
}

#[test]
fn error_messages() {
    assert_eq!(
        BetError::InsufficientBalance.message(),
        "Player does not have enough balance to make the bet."
    );
    assert_eq!(
        BetError::PlayerExists.message(),
        "Player already exists in the set, thus a new bet cannot be placed."
    );
    assert_eq!(
        BetError::PlayerNotExists.message(),
        "Player does not exist in the set, thus a raise cannot be made."
    );
}
