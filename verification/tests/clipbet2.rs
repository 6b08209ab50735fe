use clipbet::clipbet2::{
    pot_balance, u32_to_balance, BetInfo, Currency, DispatchError, Error, Event,
    ExistenceRequirement, Pallet, ZeroDefault,
};
use std::collections::BTreeMap;

const POT: u64 = 1000;

/// A simple ledger standing in for the runtime's balances.
struct Ledger {
    balances: BTreeMap<u64, u128>,
    minimum: u128,
    issuance: u128,
    deposits: Vec<(u64, u128)>,
}

#[derive(Debug, PartialEq, Eq, Clone, Copy)]
enum LedgerError {
    InsufficientBalance,
}

impl Ledger {
    fn new(minimum: u128) -> Self {
        Ledger { balances: BTreeMap::new(), minimum, issuance: 0, deposits: Vec::new() }
    }
    fn with(mut self, who: u64, amount: u128) -> Self {
        let old = self.balance(who);
        self.balances.insert(who, amount);
        self.issuance = self.issuance - old + amount;
        self
    }
    fn balance(&self, who: u64) -> u128 {
        *self.balances.get(&who).unwrap_or(&0)
    }
    fn allowed(&self, source: u64, value: u128, er: ExistenceRequirement) -> bool {
        let keep = if er == ExistenceRequirement::KeepAlive { self.minimum } else { 0 };
        self.balance(source) >= value + keep
    }
}

impl Currency for Ledger {
    type Error = LedgerError;

    fn free_of(&self, who: u64) -> u128 {
        self.balance(who)
    }

    fn total_of(&self, who: u64) -> u128 {
        self.balance(who)
    }

    fn minimum(&self) -> u128 {
        self.minimum
    }

    fn issuance(&self) -> u128 {
        self.issuance
    }

    fn can_transfer(
        &self,
        source: u64,
        _dest: u64,
        value: u128,
        existence_requirement: ExistenceRequirement,
    ) -> bool {
        self.allowed(source, value, existence_requirement)
    }

    fn total_balance(&self, who: u64) -> u128 {
        self.balance(who)
    }

    fn free_balance(&self, who: u64) -> u128 {
        self.balance(who)
    }

    fn minimum_balance(&self) -> u128 {
        self.minimum
    }

    fn deposit_creating(&mut self, who: u64, value: u128) {
        let b = self.balance(who);
        if (b > 0 || value >= self.minimum) && b.checked_add(value).is_some() {
            self.deposits.push((who, value));
            self.balances.insert(who, b + value);
            self.issuance = self.issuance.saturating_add(value);
        }
    }

    fn transfer(
        &mut self,
        source: u64,
        dest: u64,
        value: u128,
        existence_requirement: ExistenceRequirement,
    ) -> Result<(), LedgerError> {
        if !self.allowed(source, value, existence_requirement) {
            return Err(LedgerError::InsufficientBalance);
        }
        let from = self.balance(source);
        self.balances.insert(source, from - value);
        let to = self.balance(dest);
        self.balances.insert(dest, to + value);
        Ok(())
    }
}

fn h(s: &str) -> Vec<u8> {
    s.as_bytes().to_vec()
}

#[test]
fn post_clip_stores_owner() {
    let mut p = Pallet::new(POT);
    assert_eq!(p.post_clip(1, h("clipA")), Ok(Event::ClipStored(1, h("clipA"))));
    assert_eq!(p.clips(&h("clipA")), Some(1));
    assert_eq!(p.clips(&h("clipB")), None);
}

#[test]
fn post_clip_duplicate_refused() {
    let mut p = Pallet::new(POT);
    p.post_clip(1, h("clipA")).unwrap();
    assert_eq!(p.post_clip(2, h("clipA")), Err(Error::DuplicateClip));
    assert_eq!(p.clips(&h("clipA")), Some(1));
}

#[test]
fn rm_clip_errors_and_success() {
    let mut p = Pallet::new(POT);
    assert_eq!(p.rm_clip(1, h("clipA")), Err(Error::NoClip));
    p.post_clip(1, h("clipA")).unwrap();
    assert_eq!(p.rm_clip(2, h("clipA")), Err(Error::NotYours));
    assert_eq!(p.clips(&h("clipA")), Some(1));
    assert_eq!(p.rm_clip(1, h("clipA")), Ok(Event::ClipRemoved(h("clipA"))));
    assert_eq!(p.clips(&h("clipA")), None);
}

#[test]
fn post_then_remove_then_post_again() {
    let mut p = Pallet::new(POT);
    p.post_clip(1, h("clipA")).unwrap();
    p.rm_clip(1, h("clipA")).unwrap();
    assert_eq!(p.clips(&h("clipA")), None);
    assert_eq!(p.post_clip(2, h("clipA")), Ok(Event::ClipStored(2, h("clipA"))));
    assert_eq!(p.clips(&h("clipA")), Some(2));
}

#[test]
fn place_bet_on_missing_clip_refused() {
    let mut p = Pallet::new(POT);
    let mut ledger = Ledger::new(1).with(5, 1000);
    assert_eq!(
        p.place_bet(&mut ledger, 5, h("nope"), 1, 100),
        Err(DispatchError::Module(Error::NoClip))
    );
    assert_eq!(ledger.balance(5), 1000);
    assert_eq!(p.roundtally(1), 0);
}

#[test]
fn place_bet_records_and_transfers() {
    let mut p = Pallet::new(POT);
    let mut ledger = Ledger::new(1).with(5, 1000);
    p.post_clip(1, h("clipA")).unwrap();
    assert_eq!(
        p.place_bet(&mut ledger, 5, h("clipA"), 7, 100),
        Ok(Event::BetPlaced(h("clipA"), 100))
    );
    assert_eq!(ledger.balance(5), 900);
    assert_eq!(ledger.balance(POT), 100);
    assert_eq!(p.roundtally(7), 100);
    assert_eq!(p.roundcliptally(7, &h("clipA")), 100);
    assert_eq!(
        p.bets(7, &h("clipA")),
        Some(vec![BetInfo { owner: 1, better: 5, betval: 100 }])
    );
    assert_eq!(p.roundtally(8), 0);
    assert_eq!(p.bets(8, &h("clipA")), None);
}

#[test]
fn place_bet_failed_transfer_changes_nothing() {
    let mut p = Pallet::new(POT);
    let mut ledger = Ledger::new(1).with(5, 50);
    p.post_clip(1, h("clipA")).unwrap();
    assert_eq!(
        p.place_bet(&mut ledger, 5, h("clipA"), 7, 100),
        Err(DispatchError::Currency(LedgerError::InsufficientBalance))
    );
    assert_eq!(ledger.balance(5), 50);
    assert_eq!(p.roundtally(7), 0);
    assert_eq!(p.roundcliptally(7, &h("clipA")), 0);
    assert_eq!(p.bets(7, &h("clipA")), None);
}

#[test]
fn settle_bet_with_failed_transfer() {
    let mut p = Pallet::new(POT);
    p.post_clip(1, h("clipA")).unwrap();
    let r = p.settle_bet(1, 5, h("clipA"), 7, 100, Err("no funds"));
    assert_eq!(r, Err(DispatchError::Currency("no funds")));
    assert_eq!(p.roundtally(7), 0);
    let r = p.settle_bet::<&str>(1, 5, h("clipA"), 7, 100, Ok(()));
    assert_eq!(r, Ok(Event::BetPlaced(h("clipA"), 100)));
    assert_eq!(p.roundtally(7), 100);
}

#[test]
fn tallies_agree_with_bets() {
    let mut p = Pallet::new(POT);
    let mut ledger = Ledger::new(1).with(5, 10_000).with(6, 10_000);
    p.post_clip(1, h("clipA")).unwrap();
    p.post_clip(2, h("clipB")).unwrap();
    p.place_bet(&mut ledger, 5, h("clipA"), 1, 100).unwrap();
    p.place_bet(&mut ledger, 6, h("clipA"), 1, 300).unwrap();
    p.place_bet(&mut ledger, 6, h("clipB"), 1, 600).unwrap();
    p.place_bet(&mut ledger, 5, h("clipB"), 2, 40).unwrap();
    let a = p.bets(1, &h("clipA")).unwrap();
    let sum_a: u128 = a.iter().map(|b| b.betval).sum();
    assert_eq!(sum_a, p.roundcliptally(1, &h("clipA")));
    assert_eq!(p.roundcliptally(1, &h("clipA")), 400);
    assert_eq!(p.roundcliptally(1, &h("clipB")), 600);
    assert_eq!(p.roundtally(1), 1000);
    assert_eq!(p.roundtally(2), 40);
    assert!(p.roundcliptally(1, &h("clipA")) <= p.roundtally(1));
    assert_eq!(a[0], BetInfo { owner: 1, better: 5, betval: 100 });
    assert_eq!(a[1], BetInfo { owner: 1, better: 6, betval: 300 });
    assert_eq!(ledger.balance(POT), 1040);
}

#[test]
fn choose_winner_clip_without_bets_refused() {
    let mut p = Pallet::new(POT);
    p.post_clip(1, h("clipA")).unwrap();
    assert_eq!(p.choose_winner_clip(9, h("clipA"), 1), Err(Error::NoBetsOnClip));
    p.post_clip(2, h("clipB")).unwrap();
    p.settle_bet::<()>(2, 5, h("clipB"), 1, 10, Ok(())).unwrap();
    assert_eq!(p.choose_winner_clip(9, h("clipA"), 1), Err(Error::NoBetsOnClip));
}

#[test]
fn choose_winner_clip_with_zero_bets_accepted() {
    let mut p = Pallet::new(POT);
    p.post_clip(1, h("c")).unwrap();
    p.post_clip(2, h("d")).unwrap();
    p.settle_bet::<()>(1, 5, h("c"), 1, 0, Ok(())).unwrap();
    p.settle_bet::<()>(2, 6, h("d"), 1, 50, Ok(())).unwrap();
    assert_eq!(p.roundcliptally(1, &h("c")), 0);
    let w = p.choose_winner_clip(9, h("c"), 1).unwrap();
    // A ratio over a zero tally is a whole `Perbill`.
    assert_eq!(w.rewards, vec![50]);
    assert_eq!(w.round_clip_tally, 0);
}

#[test]
fn choose_winner_clip_rewards_proportional() {
    let mut p = Pallet::new(POT);
    let mut ledger = Ledger::new(1).with(5, 10_000).with(6, 10_000);
    p.post_clip(1, h("clipA")).unwrap();
    p.post_clip(2, h("clipB")).unwrap();
    p.place_bet(&mut ledger, 5, h("clipA"), 1, 100).unwrap();
    p.place_bet(&mut ledger, 6, h("clipA"), 1, 300).unwrap();
    p.place_bet(&mut ledger, 6, h("clipB"), 1, 600).unwrap();
    let w = p.choose_winner_clip(9, h("clipA"), 1).unwrap();
    assert_eq!(w.round_clip_tally, 400);
    assert_eq!(w.round_tally, 1000);
    assert_eq!(w.rewards, vec![250, 750]);
}

#[test]
fn choose_winner_clip_rewards_round_to_nearest() {
    let mut p = Pallet::new(POT);
    p.post_clip(1, h("c")).unwrap();
    p.post_clip(2, h("d")).unwrap();
    p.settle_bet::<()>(1, 5, h("c"), 3, 1, Ok(())).unwrap();
    p.settle_bet::<()>(1, 6, h("c"), 3, 2, Ok(())).unwrap();
    p.settle_bet::<()>(2, 6, h("d"), 3, 7, Ok(())).unwrap();
    let w = p.choose_winner_clip(9, h("c"), 3).unwrap();
    // 1/3 is 333_333_333 parts, 2/3 is 666_666_666 parts, of a round of 10.
    assert_eq!(w.rewards, vec![3, 7]);
}

#[test]
fn sole_bet_takes_the_round() {
    let mut p = Pallet::new(POT);
    p.post_clip(1, h("c")).unwrap();
    p.post_clip(2, h("d")).unwrap();
    p.settle_bet::<()>(1, 5, h("c"), 3, 123, Ok(())).unwrap();
    p.settle_bet::<()>(2, 6, h("d"), 3, 999_999_999_877, Ok(())).unwrap();
    let w = p.choose_winner_clip(9, h("c"), 3).unwrap();
    assert_eq!(w.rewards, vec![1_000_000_000_000]);
}

#[test]
fn rewards_never_exceed_round() {
    let mut p = Pallet::new(POT);
    p.post_clip(1, h("c")).unwrap();
    for (who, v) in [(5u64, 1u128), (6, 999_999_999), (7, 17), (8, u64::MAX as u128)] {
        p.settle_bet::<()>(1, who, h("c"), 4, v, Ok(())).unwrap();
    }
    let w = p.choose_winner_clip(9, h("c"), 4).unwrap();
    assert_eq!(w.rewards.len(), 4);
    for r in &w.rewards {
        assert!(*r <= w.round_tally);
    }
}

#[test]
fn choose_winner_clip_transfer_call() {
    let mut p = Pallet::new(POT);
    p.post_clip(1, h("c")).unwrap();
    p.settle_bet::<()>(1, 5, h("c"), 1, 10, Ok(())).unwrap();
    let w = p.choose_winner_clip(1, h("c"), 1).unwrap();
    assert_eq!(w.transfer_call, "0x06000001000000000000000b00204aa9d101");
    let w = p.choose_winner_clip(0x0102030405060708, h("c"), 1).unwrap();
    assert_eq!(w.transfer_call, "0x06000008070605040302010b00204aa9d101");
}

#[test]
fn start_song_creates_pot() {
    let p = Pallet::new(POT);
    let mut ledger = Ledger::new(10);
    let ev = p.start_song(&mut ledger, 3, h("c"));
    assert_eq!(ledger.deposits, vec![(POT, 10)]);
    assert_eq!(ev, Event::SongStarted(3, h("c"), POT, 0));
}

#[test]
fn start_song_existing_pot() {
    let p = Pallet::new(POT);
    let mut ledger = Ledger::new(10).with(POT, 250);
    let ev = p.start_song(&mut ledger, 3, h("c"));
    assert!(ledger.deposits.is_empty());
    assert_eq!(ev, Event::SongStarted(3, h("c"), POT, 240));
}

#[test]
fn pot_reports_balance_above_minimum() {
    let p = Pallet::new(POT);
    let ledger = Ledger::new(10).with(POT, 4);
    assert_eq!(p.pot(&ledger), (POT, 0));
    let ledger = Ledger::new(10).with(POT, 45);
    assert_eq!(p.pot(&ledger), (POT, 35));
    assert_eq!(p.account_id(), POT);
}

#[test]
fn pot_balance_saturates() {
    assert_eq!(pot_balance(100, 30), 70);
    assert_eq!(pot_balance(30, 100), 0);
    assert_eq!(pot_balance(30, 30), 0);
}

#[test]
fn balance_helpers() {
    assert_eq!(ZeroDefault(), 0);
    assert_eq!(u32_to_balance(42), 42);
    assert_eq!(u32_to_balance(u32::MAX), u32::MAX as u128);
}

#[test]
fn larger_bet_never_smaller_reward() {
    let mut p = Pallet::new(POT);
    p.post_clip(1, h("c")).unwrap();
    p.post_clip(2, h("d")).unwrap();
    let bets = [3u128, 5, 5, 8, 13, 21, 34];
    for (i, v) in bets.iter().enumerate() {
        p.settle_bet::<()>(1, 10 + i as u64, h("c"), 6, *v, Ok(())).unwrap();
    }
    p.settle_bet::<()>(2, 9, h("d"), 6, 1_234_567, Ok(())).unwrap();
    let w = p.choose_winner_clip(9, h("c"), 6).unwrap();
    assert_eq!(w.rewards.len(), bets.len());
    for i in 1..bets.len() {
        assert!(w.rewards[i - 1] <= w.rewards[i]);
    }
    assert_eq!(w.rewards[1], w.rewards[2]);
}

#[test]
fn place_bet_moves_bet_into_pot() {
    let mut p = Pallet::new(POT);
    let mut ledger = Ledger::new(1).with(1, 1000).with(5, 1000);
    p.post_clip(1, h("a")).unwrap();
    let issuance = ledger.issuance;
    assert_eq!(p.place_bet(&mut ledger, 5, h("a"), 1, 30), Ok(Event::BetPlaced(h("a"), 30)));
    assert_eq!(ledger.balance(5), 970);
    assert_eq!(ledger.balance(POT), 30);
    assert_eq!(ledger.balance(1), 1000);
    assert_eq!(ledger.issuance, issuance);
    assert_eq!(p.pot(&ledger), (POT, 29));
}

#[test]
fn place_bet_after_removal_keeps_balance() {
    let mut p = Pallet::new(POT);
    let mut ledger = Ledger::new(1).with(1, 1000).with(5, 1000);
    p.post_clip(1, h("a")).unwrap();
    p.rm_clip(1, h("a")).unwrap();
    assert_eq!(
        p.place_bet(&mut ledger, 5, h("a"), 1, 30),
        Err(DispatchError::Module(Error::NoClip))
    );
    assert_eq!(ledger.balance(5), 1000);
    assert_eq!(ledger.balance(POT), 0);
    assert_eq!(p.bets(1, &h("a")), None);
}

#[test]
fn bets_commute_in_balances() {
    let run = |first: (u64, u128), second: (u64, u128)| {
        let mut p = Pallet::new(POT);
        let mut ledger = Ledger::new(1).with(5, 1000).with(6, 1000);
        p.post_clip(1, h("a")).unwrap();
        p.place_bet(&mut ledger, first.0, h("a"), 2, first.1).unwrap();
        p.place_bet(&mut ledger, second.0, h("a"), 2, second.1).unwrap();
        (ledger.balances.clone(), p.roundtally(2), p.roundcliptally(2, &h("a")))
    };
    assert_eq!(run((5, 30), (6, 70)), run((6, 70), (5, 30)));
}

#[test]
fn start_song_fresh_pot_reports_zero() {
    let p = Pallet::new(POT);
    let mut ledger = Ledger::new(1);
    let ev = p.start_song(&mut ledger, 3, h("c"));
    assert_eq!(ledger.balance(POT), 1);
    assert_eq!(ledger.issuance, 1);
    assert_eq!(ev, Event::SongStarted(3, h("c"), POT, 0));
    let ev = p.start_song(&mut ledger, 4, h("d"));
    assert_eq!(ledger.deposits, vec![(POT, 1)]);
    assert_eq!(ledger.balance(POT), 1);
    assert_eq!(ev, Event::SongStarted(4, h("d"), POT, 0));
}

#[test]
fn pot_holds_sum_of_round_tallies() {
    let mut p = Pallet::new(POT);
    let mut ledger = Ledger::new(1).with(5, 1000).with(6, 1000);
    p.start_song(&mut ledger, 3, h("a"));
    assert_eq!(p.pot(&ledger).1, 0);
    p.post_clip(1, h("a")).unwrap();
    p.post_clip(2, h("b")).unwrap();
    p.place_bet(&mut ledger, 5, h("a"), 1, 30).unwrap();
    p.place_bet(&mut ledger, 6, h("b"), 2, 70).unwrap();
    assert!(p.place_bet(&mut ledger, 5, h("a"), 2, 5000).is_err());
    p.start_song(&mut ledger, 3, h("b"));
    p.choose_winner_clip(9, h("a"), 1).unwrap();
    assert_eq!(p.pot(&ledger).1, p.roundtally(1) + p.roundtally(2));
    assert_eq!(p.pot(&ledger).1, 100);
}
