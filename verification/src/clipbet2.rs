//! The clip-betting pallet: clips are posted by their owners, bets are placed on
//! clips in numbered rounds, and a winning clip's bets are given their share of
//! the round's pot.
//!
//! The pallet's storage is the state of `Pallet`; the runtime's currency is the
//! `Currency` trait, which the runtime implements.
use vstd::prelude::*;
use crate::keymap::{KeyMap, MapKey, bytes_equal, copy_bytes};
use crate::perbill::{
    PERBILL_ACCURACY,
    perbill_from_rational,
    perbill_mul,
    perbill_mul_spec,
    perbill_parts_of,
    lemma_perbill_parts_bounded,
    lemma_perbill_mul_within,
    lemma_perbill_mul_whole,
    lemma_perbill_parts_whole,
    lemma_perbill_mul_monotone,
    lemma_perbill_parts_monotone,
    lemma_perbill_mul_upper,
    law_perbill_ratio_is_floor,
};
use crate::transfer_call::{encode_transfer_call_hex, transfer_call_hex};
use crate::setsum::{
    set_sum,
    lemma_set_sum_congruent,
    lemma_set_sum_insert,
    lemma_set_sum_remove,
    lemma_set_sum_empty,
};

verus! {

/// A bet placed on a clip in a round.
#[derive(Clone, Copy, Debug, PartialEq, Eq, Structural)]
pub struct BetInfo {
    /// The account that posted the clip.
    pub owner: u64,
    /// The account that placed the bet.
    pub better: u64,
    /// The amount bet.
    pub betval: u128,
}

/// The key of the per-round, per-clip storage maps.
struct RoundClip {
    round: u64,
    clip: Vec<u8>,
}

impl View for RoundClip {
    type V = (u64, Seq<u8>);

    closed spec fn view(&self) -> (u64, Seq<u8>) {
        (self.round, self.clip@)
    }
}

impl MapKey for RoundClip {
    fn same_key(&self, other: &Self) -> (r: bool) {
        let same_clip = bytes_equal(&self.clip, &other.clip);
        self.round == other.round && same_clip
    }
}

fn round_clip(round: u64, clip: &Vec<u8>) -> (k: RoundClip)
    ensures
        k@ == (round, clip@),
{
    RoundClip { round, clip: copy_bytes(clip) }
}

/// The pallet's errors.
#[derive(Clone, Copy, Debug, PartialEq, Eq, Structural)]
pub enum Error {
    /// Someone has already entered this clip.
    DuplicateClip,
    /// There is no clip with this hash ID.
    NoClip,
    /// You didn't post this clip.
    NotYours,
    /// There are no bets for this clip.
    NoBetsOnClip,
    /// Storage overflow.
    StorageOverflow,
}

/// Why a call that moves funds failed: the pallet refused it, or the currency did.
#[derive(Debug, PartialEq, Eq)]
pub enum DispatchError<E> {
    Module(Error),
    Currency(E),
}

/// The pallet's events.
#[derive(Debug, PartialEq, Eq)]
pub enum Event {
    /// A clip was stored: its owner and its hash.
    ClipStored(u64, Vec<u8>),
    /// A clip was removed.
    ClipRemoved(Vec<u8>),
    /// A bet was placed on a clip: the clip and the amount.
    BetPlaced(Vec<u8>, u128),
    /// A song was started: the caller, the clip, the pot account and the pot.
    SongStarted(u64, Vec<u8>, u64, u128),
    /// Rewards were sent.
    RewardsSent(Vec<u128>),
}

/// Whether a transfer may leave the source account below the minimum balance.
#[derive(Clone, Copy, Debug, PartialEq, Eq, Structural)]
pub enum ExistenceRequirement {
    KeepAlive,
    AllowDeath,
}

/// The runtime's currency, as the pallet's configuration supplies it.
///
/// The runtime implements this trait; the contracts of its methods are what the
/// pallet requires of that implementation. Balances are seen through the spec
/// functions `free_of`, `total_of`, `minimum` and `issuance`.
pub trait Currency: Sized {
    type Error;

    /// The balance of an account that can be moved.
    spec fn free_of(&self, who: u64) -> u128;

    /// The combined balance of an account (free and reserved).
    spec fn total_of(&self, who: u64) -> u128;

    /// The minimum balance that an account may hold.
    spec fn minimum(&self) -> u128;

    /// The total issuance of the currency.
    spec fn issuance(&self) -> u128;

    /// Whether a transfer would be made, given the balances it starts from.
    spec fn can_transfer(
        &self,
        source: u64,
        dest: u64,
        value: u128,
        existence_requirement: ExistenceRequirement,
    ) -> bool;

    /// The total balance of an account; it is never less than the free balance.
    fn total_balance(&self, who: u64) -> (r: u128)
        ensures
            r == self.total_of(who),
            self.free_of(who) <= r,
    ;

    /// The balance of an account that can be moved.
    fn free_balance(&self, who: u64) -> (r: u128)
        ensures
            r == self.free_of(who),
    ;

    /// The balance below which an account is removed.
    fn minimum_balance(&self) -> (r: u128)
        ensures
            r == self.minimum(),
    ;

    /// Credits `value` to an account, creating it if needed. The credit is made
    /// where the account exists or `value` reaches the minimum balance, and the
    /// balance does not overflow; the issuance grows by the credit, saturating.
    /// Otherwise nothing changes. No other account changes.
    fn deposit_creating(&mut self, who: u64, value: u128)
        ensures
            ({
                let made = (old(self).total_of(who) > 0 || value >= old(self).minimum())
                    && old(self).total_of(who) + value <= u128::MAX;
                &&& made ==> {
                    &&& final(self).free_of(who) == old(self).free_of(who) + value
                    &&& final(self).total_of(who) == old(self).total_of(who) + value
                    &&& final(self).issuance() == (if old(self).issuance() + value
                        <= u128::MAX {
                        (old(self).issuance() + value) as u128
                    } else {
                        u128::MAX
                    })
                    &&& final(self).minimum() == old(self).minimum()
                    &&& forall|a: u64|
                        a != who ==> {
                            &&& #[trigger] final(self).free_of(a) == old(self).free_of(a)
                            &&& final(self).total_of(a) == old(self).total_of(a)
                        }
                }
                &&& !made ==> *final(self) == *old(self)
            }),
    ;

    /// Moves `value` from `source` to `dest`. Whether it succeeds is decided by
    /// `can_transfer`; on success the balances are `moved`, on failure nothing
    /// changes.
    fn transfer(
        &mut self,
        source: u64,
        dest: u64,
        value: u128,
        existence_requirement: ExistenceRequirement,
    ) -> (r: Result<(), Self::Error>)
        ensures
            r is Ok <==> old(self).can_transfer(source, dest, value, existence_requirement),
            r is Ok ==> {
                &&& source != dest ==> {
                    &&& final(self).free_of(source) == old(self).free_of(source) - value
                    &&& final(self).total_of(source) == old(self).total_of(source) - value
                    &&& final(self).free_of(dest) == old(self).free_of(dest) + value
                    &&& final(self).total_of(dest) == old(self).total_of(dest) + value
                }
                &&& source == dest ==> {
                    &&& final(self).free_of(source) == old(self).free_of(source)
                    &&& final(self).total_of(source) == old(self).total_of(source)
                }
                &&& forall|a: u64|
                    a != source && a != dest ==> {
                        &&& #[trigger] final(self).free_of(a) == old(self).free_of(a)
                        &&& final(self).total_of(a) == old(self).total_of(a)
                    }
                &&& final(self).issuance() == old(self).issuance()
                &&& final(self).minimum() == old(self).minimum()
            },
            r is Err ==> *final(self) == *old(self),
    ;
}

/// `after` is `before` with `value` moved from `source` to `dest`: exactly
/// `value` leaves the source's free and total balance and reaches the
/// destination's, and no other account, the issuance and the minimum balance
/// change.
pub open spec fn moved<C: Currency>(before: C, after: C, source: u64, dest: u64, value: u128) -> bool {
    &&& source != dest ==> {
        &&& after.free_of(source) == before.free_of(source) - value
        &&& after.total_of(source) == before.total_of(source) - value
        &&& after.free_of(dest) == before.free_of(dest) + value
        &&& after.total_of(dest) == before.total_of(dest) + value
    }
    &&& source == dest ==> {
        &&& after.free_of(source) == before.free_of(source)
        &&& after.total_of(source) == before.total_of(source)
    }
    &&& forall|a: u64|
        a != source && a != dest ==> {
            &&& #[trigger] after.free_of(a) == before.free_of(a)
            &&& after.total_of(a) == before.total_of(a)
        }
    &&& after.issuance() == before.issuance()
    &&& after.minimum() == before.minimum()
}

/// `after` is `before` with `value` credited to `who`, the issuance growing by
/// it (saturating), and no other account or the minimum balance changing.
pub open spec fn credited<C: Currency>(before: C, after: C, who: u64, value: u128) -> bool {
    &&& after.free_of(who) == before.free_of(who) + value
    &&& after.total_of(who) == before.total_of(who) + value
    &&& after.issuance() == (if before.issuance() + value <= u128::MAX {
        (before.issuance() + value) as u128
    } else {
        u128::MAX
    })
    &&& after.minimum() == before.minimum()
    &&& forall|a: u64|
        a != who ==> {
            &&& #[trigger] after.free_of(a) == before.free_of(a)
            &&& after.total_of(a) == before.total_of(a)
        }
}

/// `after` is `before` once a song start has made sure the pot account exists:
/// a pot account with a total balance of zero is credited with the minimum
/// balance, and otherwise nothing changes.
pub open spec fn pot_started<C: Currency>(before: C, after: C, pot: u64) -> bool {
    &&& before.total_of(pot) == 0 ==> {
        &&& credited(before, after, pot, before.minimum())
        &&& after.free_of(pot) == before.minimum()
    }
    &&& before.total_of(pot) != 0 ==> after == before
}

/// The balance in a pot whose account holds `free`: what exceeds the minimum
/// balance, which is not part of the pot so that the account is never removed.
pub open spec fn pot_amount(free: u128, minimum: u128) -> u128 {
    if free >= minimum {
        (free - minimum) as u128
    } else {
        0u128
    }
}

/// What a winner selection computes for a clip in a round.
#[derive(Debug, PartialEq, Eq)]
pub struct WinnerSelection {
    /// The amount bet on the clip in the round.
    pub round_clip_tally: u128,
    /// The amount bet on all clips in the round.
    pub round_tally: u128,
    /// The reward of each bet on the clip, in the order the bets were placed.
    pub rewards: Vec<u128>,
    /// The transfer call to the picker, SCALE-encoded as `0x`-prefixed hex.
    pub transfer_call: String,
}

/// The sum of the amounts of a sequence of bets.
pub open spec fn bet_total(s: Seq<BetInfo>) -> int
    decreases s.len(),
{
    if s.len() == 0 {
        0
    } else {
        bet_total(s.drop_last()) + s.last().betval
    }
}

/// The reward of a bet of `bet` on a clip that drew `clip_total` in a round that
/// drew `round_total`: the bet's share of the clip, as a `Perbill`, of the round.
pub open spec fn reward_share(bet: u128, clip_total: u128, round_total: u128) -> u128 {
    perbill_mul_spec(perbill_parts_of(bet, clip_total), round_total)
}

/// The pallet's storage, as mathematical maps.
#[verifier::ext_equal]
pub struct PalletState {
    /// Clip hash to the account that posted it.
    pub clips: Map<Seq<u8>, u64>,
    /// Round and clip hash to the bets placed on the clip in the round.
    pub bets: Map<(u64, Seq<u8>), Seq<BetInfo>>,
    /// Round to the amount bet in the round.
    pub round_tally: Map<u64, u128>,
    /// Round and clip hash to the amount bet on the clip in the round.
    pub round_clip_tally: Map<(u64, Seq<u8>), u128>,
    /// The account of the pot.
    pub pot_account: u64,
}

impl PalletState {
    /// The state of a pallet with empty storage.
    pub open spec fn empty(pot_account: u64) -> PalletState {
        PalletState {
            clips: Map::empty(),
            bets: Map::empty(),
            round_tally: Map::empty(),
            round_clip_tally: Map::empty(),
            pot_account,
        }
    }

    /// The amount bet in a round (zero for a round with no bets).
    pub open spec fn tally(self, round: u64) -> u128 {
        if self.round_tally.contains_key(round) {
            self.round_tally[round]
        } else {
            0
        }
    }

    /// The amount bet on a clip in a round (zero where there is none).
    pub open spec fn clip_tally(self, round: u64, clip: Seq<u8>) -> u128 {
        if self.round_clip_tally.contains_key((round, clip)) {
            self.round_clip_tally[(round, clip)]
        } else {
            0
        }
    }

    /// The bets placed on a clip in a round (none where there are none).
    pub open spec fn bets_on(self, round: u64, clip: Seq<u8>) -> Seq<BetInfo> {
        if self.bets.contains_key((round, clip)) {
            self.bets[(round, clip)]
        } else {
            Seq::empty()
        }
    }

    /// The amount bet in all rounds together.
    pub open spec fn tallies_total(self) -> int {
        set_sum(self.round_tally.dom(), |r: u64| self.round_tally[r] as int)
    }

    /// The round and clip keys of the clips that drew a bet in a round.
    pub open spec fn round_clips(self, round: u64) -> Set<(u64, Seq<u8>)> {
        self.round_clip_tally.dom().filter(|k: (u64, Seq<u8>)| k.0 == round)
    }

    /// The tallies of the clips of a round, summed.
    pub open spec fn round_clip_sum(self, round: u64) -> int {
        set_sum(self.round_clips(round), |k: (u64, Seq<u8>)| self.round_clip_tally[k] as int)
    }

    /// The tallies agree with the bets: a clip's tally in a round is the sum of
    /// the bets on it and never exceeds the round's tally, and a round's tally
    /// is the sum of the tallies of its clips.
    pub open spec fn consistent(self) -> bool {
        &&& self.round_tally.dom().finite()
        &&& self.round_clip_tally.dom().finite()
        &&& forall|round: u64, clip: Seq<u8>|
            {
                &&& #[trigger] self.clip_tally(round, clip) == bet_total(self.bets_on(round, clip))
                &&& self.clip_tally(round, clip) <= self.tally(round)
            }
        &&& forall|round: u64| #[trigger] self.tally(round) == self.round_clip_sum(round)
    }

    /// The storage after `post_clip` by `sender`.
    pub open spec fn post_clip_next(self, sender: u64, clip: Seq<u8>) -> PalletState {
        if self.clips.contains_key(clip) {
            self
        } else {
            PalletState { clips: self.clips.insert(clip, sender), ..self }
        }
    }

    /// Why `rm_clip` by `sender` is refused, if it is.
    pub open spec fn rm_clip_error(self, sender: u64, clip: Seq<u8>) -> Option<Error> {
        if !self.clips.contains_key(clip) {
            Some(Error::NoClip)
        } else if self.clips[clip] != sender {
            Some(Error::NotYours)
        } else {
            None
        }
    }

    /// The storage after `rm_clip` by `sender`.
    pub open spec fn rm_clip_next(self, sender: u64, clip: Seq<u8>) -> PalletState {
        if self.rm_clip_error(sender, clip) is None {
            PalletState { clips: self.clips.remove(clip), ..self }
        } else {
            self
        }
    }

    /// The storage after a bet of `value` by `bettor` on a clip posted by `owner`
    /// has been paid and recorded.
    pub open spec fn bet_recorded(
        self,
        owner: u64,
        bettor: u64,
        clip: Seq<u8>,
        round: u64,
        value: u128,
    ) -> PalletState {
        PalletState {
            round_tally: self.round_tally.insert(round, (self.tally(round) + value) as u128),
            round_clip_tally: self.round_clip_tally.insert(
                (round, clip),
                (self.clip_tally(round, clip) + value) as u128,
            ),
            bets: self.bets.insert(
                (round, clip),
                self.bets_on(round, clip).push(BetInfo { owner, better: bettor, betval: value }),
            ),
            ..self
        }
    }

    /// The reward of each bet on a clip in a round, in the order of the bets.
    pub open spec fn rewards(self, round: u64, clip: Seq<u8>) -> Seq<u128> {
        self.bets_on(round, clip).map_values(
            |b: BetInfo| reward_share(b.betval, self.clip_tally(round, clip), self.tally(round)),
        )
    }
}

/// Consistency speaks of the bets and tallies only.
proof fn lemma_consistent_same_books(a: PalletState, b: PalletState)
    requires
        a.consistent(),
        a.bets == b.bets,
        a.round_tally == b.round_tally,
        a.round_clip_tally == b.round_clip_tally,
    ensures
        b.consistent(),
{
    assert forall|round: u64, clip: Seq<u8>|
        {
            &&& #[trigger] b.clip_tally(round, clip) == bet_total(b.bets_on(round, clip))
            &&& b.clip_tally(round, clip) <= b.tally(round)
        } by {
        assert(a.clip_tally(round, clip) == bet_total(a.bets_on(round, clip)));
    }
    assert forall|round: u64| #[trigger] b.tally(round) == b.round_clip_sum(round) by {
        assert(a.tally(round) == a.round_clip_sum(round));
        assert(a.round_clips(round) == b.round_clips(round));
    }
}

/// Posting a clip and then removing it as the same account is accepted and
/// leaves the storage as it was before the post.
pub proof fn law_post_then_remove_restores(s: PalletState, sender: u64, clip: Seq<u8>)
    requires
        !s.clips.contains_key(clip),
    ensures
        s.post_clip_next(sender, clip).rm_clip_error(sender, clip) is None,
        s.post_clip_next(sender, clip).rm_clip_next(sender, clip) == s,
{
    assert(s.clips.insert(clip, sender).remove(clip) =~= s.clips);
    assert(s.post_clip_next(sender, clip).rm_clip_next(sender, clip) =~= s);
}

/// A refused post or removal changes nothing: a clip keeps the owner that
/// posted it until that owner removes it.
pub proof fn law_refused_clip_calls_change_nothing(s: PalletState, sender: u64, clip: Seq<u8>)
    ensures
        s.clips.contains_key(clip) ==> s.post_clip_next(sender, clip) == s,
        s.rm_clip_error(sender, clip) is Some ==> s.rm_clip_next(sender, clip) == s,
        s.clips.contains_key(clip) && s.clips[clip] != sender ==> s.rm_clip_error(sender, clip)
            == Some(Error::NotYours),
{
}

/// In every well-formed pallet, a clip's tally in a round is the sum of the
/// bets placed on it and never exceeds the round's tally, and a round's tally is
/// the sum of the tallies of the clips bet on in it.
pub proof fn law_tallies_agree_with_bets(p: Pallet, round: u64, clip: Seq<u8>)
    requires
        p.wf(),
    ensures
        p@.clip_tally(round, clip) == bet_total(p@.bets_on(round, clip)),
        p@.clip_tally(round, clip) <= p@.tally(round),
        p@.tally(round) == p@.round_clip_sum(round),
{
}

/// A recorded bet adds its amount to its round's tally and to its clip's tally
/// in that round, appends exactly one bet with the clip's owner, and changes no
/// other round, clip or owner.
pub proof fn law_bet_recorded_adds(
    s: PalletState,
    owner: u64,
    bettor: u64,
    clip: Seq<u8>,
    round: u64,
    value: u128,
    other_round: u64,
    other_clip: Seq<u8>,
)
    requires
        s.consistent(),
        s.tally(round) + value <= u128::MAX,
    ensures
        ({
            let t = s.bet_recorded(owner, bettor, clip, round, value);
            &&& t.tally(round) == s.tally(round) + value
            &&& t.clip_tally(round, clip) == s.clip_tally(round, clip) + value
            &&& t.bets_on(round, clip) == s.bets_on(round, clip).push(
                BetInfo { owner, better: bettor, betval: value },
            )
            &&& other_round != round ==> t.tally(other_round) == s.tally(other_round)
            &&& (other_round, other_clip) != (round, clip) ==> {
                &&& t.clip_tally(other_round, other_clip) == s.clip_tally(other_round, other_clip)
                &&& t.bets_on(other_round, other_clip) == s.bets_on(other_round, other_clip)
            }
            &&& t.clips == s.clips
            &&& t.consistent()
        }),
{
    let t = s.bet_recorded(owner, bettor, clip, round, value);
    assert(s.clip_tally(round, clip) <= s.tally(round));
    assert(t.bets_on(round, clip).drop_last() =~= s.bets_on(round, clip));
    assert forall|r: u64, c: Seq<u8>|
        {
            &&& #[trigger] t.clip_tally(r, c) == bet_total(t.bets_on(r, c))
            &&& t.clip_tally(r, c) <= t.tally(r)
        } by {
        assert(s.clip_tally(r, c) == bet_total(s.bets_on(r, c)));
        assert(s.clip_tally(r, c) <= s.tally(r));
    }
    assert forall|r: u64| #[trigger] t.tally(r) == t.round_clip_sum(r) by {
        lemma_round_clip_sum_after_bet(s, owner, bettor, clip, round, value, r);
        assert(s.tally(r) == s.round_clip_sum(r));
    }
}

/// How a recorded bet changes the summed clip tallies of each round.
proof fn lemma_round_clip_sum_after_bet(
    s: PalletState,
    owner: u64,
    bettor: u64,
    clip: Seq<u8>,
    round: u64,
    value: u128,
    r: u64,
)
    requires
        s.consistent(),
        s.tally(round) + value <= u128::MAX,
    ensures
        s.bet_recorded(owner, bettor, clip, round, value).round_clip_sum(r) == s.round_clip_sum(r)
            + (if r == round { value as int } else { 0int }),
{
    let t = s.bet_recorded(owner, bettor, clip, round, value);
    let k0 = (round, clip);
    let m = s.round_clip_tally;
    let w = |k: (u64, Seq<u8>)| s.round_clip_tally[k] as int;
    let w2 = |k: (u64, Seq<u8>)| t.round_clip_tally[k] as int;
    let old_set = s.round_clips(r);
    let new_set = t.round_clips(r);
    m.dom().lemma_len_filter(|k: (u64, Seq<u8>)| k.0 == r);
    assert(s.clip_tally(round, clip) <= s.tally(round));
    if r != round {
        assert(new_set =~= old_set);
        assert forall|k: (u64, Seq<u8>)| old_set.contains(k) implies #[trigger] w(k) == w2(k) by {
            assert(k != k0);
        }
        lemma_set_sum_congruent(old_set, w, w2);
    } else if m.contains_key(k0) {
        assert(new_set =~= old_set);
        assert(old_set.contains(k0));
        lemma_set_sum_remove(old_set, w, k0);
        lemma_set_sum_remove(old_set, w2, k0);
        assert forall|k: (u64, Seq<u8>)| old_set.remove(k0).contains(k) implies #[trigger] w(k)
            == w2(k) by {
            assert(k != k0);
        }
        lemma_set_sum_congruent(old_set.remove(k0), w, w2);
    } else {
        assert(new_set =~= old_set.insert(k0));
        assert(!old_set.contains(k0));
        lemma_set_sum_insert(old_set, w2, k0);
        assert forall|k: (u64, Seq<u8>)| old_set.contains(k) implies #[trigger] w(k) == w2(k) by {
            assert(k != k0);
        }
        lemma_set_sum_congruent(old_set, w, w2);
    }
}

/// A winner selection gives one reward to each bet on the clip, and no reward
/// exceeds the round's tally.
pub proof fn law_rewards_within_round(s: PalletState, round: u64, clip: Seq<u8>)
    ensures
        s.rewards(round, clip).len() == s.bets_on(round, clip).len(),
        forall|i: int|
            0 <= i < s.rewards(round, clip).len() ==> #[trigger] s.rewards(round, clip)[i]
                <= s.tally(round),
{
    assert forall|i: int|
        0 <= i < s.rewards(round, clip).len() implies #[trigger] s.rewards(round, clip)[i]
        <= s.tally(round) by {
        let b = s.bets_on(round, clip)[i];
        lemma_perbill_parts_bounded(b.betval, s.clip_tally(round, clip));
        lemma_perbill_mul_within(
            perbill_parts_of(b.betval, s.clip_tally(round, clip)),
            s.tally(round),
        );
    }
}

/// A bet's reward is at most its exact share of the round's tally plus one
/// unit: `reward * clip_total <= bet * round_total + clip_total`, for amounts of
/// any size. A bet of a quarter of its clip can thus never be given the whole
/// round.
pub proof fn law_reward_near_share(bet: u128, clip_total: u128, round_total: u128)
    requires
        0 < clip_total,
        bet <= clip_total,
    ensures
        reward_share(bet, clip_total, round_total) as int * clip_total <= bet as int * round_total
            + clip_total,
{
    let a = PERBILL_ACCURACY as int;
    let k = perbill_parts_of(bet, clip_total);
    lemma_perbill_parts_bounded(bet, clip_total);
    law_perbill_ratio_is_floor(bet, clip_total);
    lemma_perbill_mul_upper(k, round_total);
    let m = reward_share(bet, clip_total, round_total) as int;
    let ct = clip_total as int;
    let x = round_total as int;
    let b = bet as int;
    let ki = k as int;
    assert(a * m <= ki * x + a);
    assert(ki * ct <= a * b);
    assert(a * (m * ct) <= a * (b * x + ct)) by (nonlinear_arith)
        requires
            a * m <= ki * x + a,
            ki * ct <= a * b,
            ct >= 0,
            x >= 0,
            ki >= 0,
    ;
    assert(m * ct <= b * x + ct) by (nonlinear_arith)
        requires
            a * (m * ct) <= a * (b * x + ct),
            a > 0,
    ;
}

/// No bet exceeds the sum of the bets it is among.
proof fn lemma_bet_within_total(bets: Seq<BetInfo>, i: int)
    requires
        0 <= i < bets.len(),
    ensures
        bets[i].betval <= bet_total(bets),
    decreases bets.len(),
{
    lemma_bet_total_nonnegative(bets.drop_last());
    if i < bets.len() - 1 {
        assert(bets.drop_last()[i] == bets[i]);
        lemma_bet_within_total(bets.drop_last(), i);
    }
}

proof fn lemma_bet_total_nonnegative(bets: Seq<BetInfo>)
    ensures
        bet_total(bets) >= 0,
    decreases bets.len(),
{
    if bets.len() > 0 {
        lemma_bet_total_nonnegative(bets.drop_last());
    }
}

/// In a consistent pallet, every reward of a winner selection is at most the
/// bet's exact share of the round's tally plus one unit.
pub proof fn law_rewards_near_shares(s: PalletState, round: u64, clip: Seq<u8>, i: int)
    requires
        s.consistent(),
        0 <= i < s.bets_on(round, clip).len(),
        s.clip_tally(round, clip) > 0,
    ensures
        s.rewards(round, clip)[i] as int * s.clip_tally(round, clip) <= s.bets_on(round, clip)[i].betval
            as int * s.tally(round) + s.clip_tally(round, clip),
{
    let bets = s.bets_on(round, clip);
    assert(s.clip_tally(round, clip) == bet_total(bets));
    lemma_bet_within_total(bets, i);
    law_reward_near_share(bets[i].betval, s.clip_tally(round, clip), s.tally(round));
}

/// A bet that makes up all that was bet on its clip is rewarded with the whole
/// round's tally.
pub proof fn law_sole_bet_takes_round(bet: u128, round_total: u128)
    requires
        bet > 0,
    ensures
        reward_share(bet, bet, round_total) == round_total,
{
    lemma_perbill_parts_whole(bet);
    lemma_perbill_mul_whole(round_total);
}

/// Among the bets on one clip, a larger bet is never given a smaller reward.
pub proof fn law_reward_monotone(bet1: u128, bet2: u128, clip_total: u128, round_total: u128)
    requires
        bet1 <= bet2 <= clip_total,
        clip_total > 0,
    ensures
        reward_share(bet1, clip_total, round_total) <= reward_share(bet2, clip_total, round_total),
{
    lemma_perbill_parts_monotone(bet1, bet2, clip_total);
    lemma_perbill_parts_bounded(bet2, clip_total);
    lemma_perbill_mul_monotone(
        perbill_parts_of(bet1, clip_total),
        perbill_parts_of(bet2, clip_total),
        round_total,
    );
}

/// A successful bet pays exactly its amount into the pot and adds exactly that
/// amount to its round's tally.
pub proof fn law_bet_pays_into_pot<C: Currency>(
    s: PalletState,
    before: C,
    after: C,
    owner: u64,
    bettor: u64,
    clip: Seq<u8>,
    round: u64,
    value: u128,
)
    requires
        s.consistent(),
        s.tally(round) + value <= u128::MAX,
        moved(before, after, bettor, s.pot_account, value),
        bettor != s.pot_account,
    ensures
        after.free_of(s.pot_account) == before.free_of(s.pot_account) + value,
        after.free_of(bettor) == before.free_of(bettor) - value,
        after.issuance() == before.issuance(),
        s.bet_recorded(owner, bettor, clip, round, value).tally(round) == s.tally(round) + value,
{
}

/// Two successful bets into the pot leave the same balances and issuance in
/// either order.
pub proof fn law_bets_commute_in_balances<C: Currency>(
    c0: C,
    c1: C,
    c2: C,
    d1: C,
    d2: C,
    x: u64,
    y: u64,
    pot: u64,
    v1: u128,
    v2: u128,
    a: u64,
)
    requires
        moved(c0, c1, x, pot, v1),
        moved(c1, c2, y, pot, v2),
        moved(c0, d1, y, pot, v2),
        moved(d1, d2, x, pot, v1),
    ensures
        c2.free_of(a) == d2.free_of(a),
        c2.total_of(a) == d2.total_of(a),
        c2.issuance() == d2.issuance(),
{
    lemma_moved_at(c0, c1, x, pot, v1, a);
    lemma_moved_at(c1, c2, y, pot, v2, a);
    lemma_moved_at(c0, d1, y, pot, v2, a);
    lemma_moved_at(d1, d2, x, pot, v1, a);
}

/// What a move does to one account: the change of its free and total balance.
pub proof fn lemma_moved_at<C: Currency>(
    before: C,
    after: C,
    source: u64,
    dest: u64,
    value: u128,
    a: u64,
)
    requires
        moved(before, after, source, dest, value),
    ensures
        ({
            let delta = if source == dest {
                0int
            } else if a == source {
                -(value as int)
            } else if a == dest {
                value as int
            } else {
                0int
            };
            &&& after.free_of(a) == before.free_of(a) + delta
            &&& after.total_of(a) == before.total_of(a) + delta
        }),
{
    if a != source && a != dest {
        assert(after.free_of(a) == before.free_of(a) && after.total_of(a) == before.total_of(a));
    }
}

/// Two recorded bets on a clip leave the same tallies in either order.
pub proof fn law_bets_commute_in_tallies(
    s: PalletState,
    o: u64,
    x: u64,
    y: u64,
    clip: Seq<u8>,
    round: u64,
    v1: u128,
    v2: u128,
    r: u64,
    c: Seq<u8>,
)
    ensures
        ({
            let t1 = s.bet_recorded(o, x, clip, round, v1).bet_recorded(o, y, clip, round, v2);
            let t2 = s.bet_recorded(o, y, clip, round, v2).bet_recorded(o, x, clip, round, v1);
            &&& (s.tally(round) + v1 + v2 <= u128::MAX ==> t1.tally(r) == t2.tally(r))
            &&& (s.clip_tally(round, clip) + v1 + v2 <= u128::MAX ==> t1.clip_tally(r, c)
                == t2.clip_tally(r, c))
            &&& t1.bets_on(r, c).len() == t2.bets_on(r, c).len()
        }),
{
}

/// A started song credits the pot at most once: starting another leaves every
/// balance as the first left it, where the minimum balance is not zero.
pub proof fn law_pot_credited_once<C: Currency>(c0: C, c1: C, c2: C, pot: u64)
    requires
        c0.minimum() > 0,
        pot_started(c0, c1, pot),
        pot_started(c1, c2, pot),
    ensures
        c2 == c1,
{
}

/// The pot holds exactly what was bet: the pot account's free balance is at
/// least the minimum balance, and what exceeds it is the sum of all round tallies.
pub open spec fn pot_holds_tallies<C: Currency>(s: PalletState, c: C) -> bool {
    &&& c.free_of(s.pot_account) >= c.minimum()
    &&& pot_amount(c.free_of(s.pot_account), c.minimum()) == s.tallies_total()
}

/// A recorded bet adds its amount to the total of all round tallies.
proof fn lemma_tallies_total_after_bet(
    s: PalletState,
    owner: u64,
    bettor: u64,
    clip: Seq<u8>,
    round: u64,
    value: u128,
)
    requires
        s.consistent(),
        s.tally(round) + value <= u128::MAX,
    ensures
        s.bet_recorded(owner, bettor, clip, round, value).tallies_total() == s.tallies_total()
            + value,
{
    let t = s.bet_recorded(owner, bettor, clip, round, value);
    let d = s.round_tally.dom();
    let w = |r: u64| s.round_tally[r] as int;
    let w2 = |r: u64| t.round_tally[r] as int;
    if d.contains(round) {
        assert(t.round_tally.dom() =~= d);
        lemma_set_sum_remove(d, w, round);
        lemma_set_sum_remove(d, w2, round);
        assert forall|r: u64| d.remove(round).contains(r) implies #[trigger] w(r) == w2(r) by {
            assert(r != round);
        }
        lemma_set_sum_congruent(d.remove(round), w, w2);
    } else {
        assert(t.round_tally.dom() =~= d.insert(round));
        lemma_set_sum_insert(d, w2, round);
        assert forall|r: u64| d.contains(r) implies #[trigger] w(r) == w2(r) by {
            assert(r != round);
        }
        lemma_set_sum_congruent(d, w, w2);
    }
}

/// From a pallet with empty storage, the song start that creates the pot
/// leaves a pot that holds exactly what was bet: nothing.
pub proof fn law_pot_holds_tallies_from_genesis<C: Currency>(pot: u64, c0: C, c1: C)
    requires
        c0.total_of(pot) == 0,
        c0.free_of(pot) <= c0.total_of(pot),
        pot_started(c0, c1, pot),
    ensures
        pot_holds_tallies(PalletState::empty(pot), c1),
{
    lemma_set_sum_empty(|r: u64| PalletState::empty(pot).round_tally[r] as int);
    assert(PalletState::empty(pot).round_tally.dom() =~= Set::<u64>::empty());
}

/// A song start keeps the pot holding exactly what was bet.
pub proof fn law_song_start_keeps_pot_tallies<C: Currency>(s: PalletState, c0: C, c1: C)
    requires
        pot_holds_tallies(s, c0),
        c0.free_of(s.pot_account) <= c0.total_of(s.pot_account),
        pot_started(c0, c1, s.pot_account),
    ensures
        pot_holds_tallies(s, c1),
{
}

/// A successful bet by an account other than the pot keeps the pot holding
/// exactly what was bet: the pot and the tallies both grow by the bet.
pub proof fn law_bet_keeps_pot_tallies<C: Currency>(
    s: PalletState,
    c0: C,
    c1: C,
    owner: u64,
    bettor: u64,
    clip: Seq<u8>,
    round: u64,
    value: u128,
)
    requires
        s.consistent(),
        s.tally(round) + value <= u128::MAX,
        pot_holds_tallies(s, c0),
        bettor != s.pot_account,
        moved(c0, c1, bettor, s.pot_account, value),
    ensures
        pot_holds_tallies(s.bet_recorded(owner, bettor, clip, round, value), c1),
{
    lemma_tallies_total_after_bet(s, owner, bettor, clip, round, value);
}

/// Posting and removing clips keep the pot holding exactly what was bet.
pub proof fn law_clip_calls_keep_pot_tallies<C: Currency>(
    s: PalletState,
    c: C,
    sender: u64,
    clip: Seq<u8>,
)
    requires
        pot_holds_tallies(s, c),
    ensures
        pot_holds_tallies(s.post_clip_next(sender, clip), c),
        pot_holds_tallies(s.rm_clip_next(sender, clip), c),
{
}

/// The pot never reports more than its account's free balance: what it reports
/// together with the minimum balance is that free balance, and a pot account
/// holding less than the minimum balance reports nothing.
pub proof fn law_pot_amount_within_free(free: u128, minimum: u128)
    ensures
        pot_amount(free, minimum) <= free,
        free >= minimum ==> pot_amount(free, minimum) + minimum == free,
        free < minimum ==> pot_amount(free, minimum) == 0,
        pot_amount(free, 0) == free,
{
}

/// The balance in the pot: its free balance less the minimum balance, which is
/// not part of the pot so that the pot account is never removed.
pub fn pot_balance(free: u128, minimum: u128) -> (r: u128)
    ensures
        r == pot_amount(free, minimum),
        r <= free,
        free >= minimum ==> r + minimum == free,
        free < minimum ==> r == 0,
{
    free.saturating_sub(minimum)
}

/// The zero balance, the default value of the tallies.
#[allow(non_snake_case)]
pub fn ZeroDefault() -> (r: u128)
    ensures
        r == 0,
{
    u32_to_balance(0)
}

/// A `u32` as a balance.
pub fn u32_to_balance(input: u32) -> (r: u128)
    ensures
        r == input,
{
    input as u128
}

fn copy_bets(v: &Vec<BetInfo>) -> (r: Vec<BetInfo>)
    ensures
        r@ == v@,
{
    let mut r: Vec<BetInfo> = Vec::new();
    let mut i: usize = 0;
    while i < v.len()
        invariant
            i <= v.len(),
            r@ == v@.subrange(0, i as int),
        decreases v.len() - i,
    {
        r.push(v[i]);
        i += 1;
        assert(r@ =~= v@.subrange(0, i as int));
    }
    assert(v@.subrange(0, v.len() as int) =~= v@);
    r
}

/// The clip-betting pallet's storage.
pub struct Pallet {
    all_clips: KeyMap<Vec<u8>, u64>,
    bets_double_map: KeyMap<RoundClip, Vec<BetInfo>>,
    round_tally: KeyMap<u64, u128>,
    round_clip_tally: KeyMap<RoundClip, u128>,
    pot_account: u64,
}

impl View for Pallet {
    type V = PalletState;

    closed spec fn view(&self) -> PalletState {
        PalletState {
            clips: self.all_clips@,
            bets: self.bets_double_map@.map_values(|v: Vec<BetInfo>| v@),
            round_tally: self.round_tally@,
            round_clip_tally: self.round_clip_tally@,
            pot_account: self.pot_account,
        }
    }
}

impl Pallet {
    /// Well-formedness: the maps are well formed and the tallies agree with the bets.
    pub closed spec fn wf(&self) -> bool {
        &&& self.all_clips.wf()
        &&& self.bets_double_map.wf()
        &&& self.round_tally.wf()
        &&& self.round_clip_tally.wf()
        &&& self@.consistent()
    }

    /// A pallet with empty storage whose pot is `pot_account`.
    pub fn new(pot_account: u64) -> (p: Self)
        ensures
            p.wf(),
            p@ == PalletState::empty(pot_account),
    {
        let p = Pallet {
            all_clips: KeyMap::new(),
            bets_double_map: KeyMap::new(),
            round_tally: KeyMap::new(),
            round_clip_tally: KeyMap::new(),
            pot_account,
        };
        assert(p@.bets =~= Map::empty());
        proof {
            assert forall|round: u64| #[trigger] p@.tally(round) == p@.round_clip_sum(round) by {
                assert(p@.round_clips(round) =~= Set::<(u64, Seq<u8>)>::empty());
                lemma_set_sum_empty(|k: (u64, Seq<u8>)| p@.round_clip_tally[k] as int);
            }
        }
        p
    }

    /// The account ID of the clipbet pot.
    pub fn account_id(&self) -> (r: u64)
        ensures
            r == self@.pot_account,
    {
        self.pot_account
    }

    /// The owner of a clip, if it has been posted.
    pub fn clips(&self, cliphash: &Vec<u8>) -> (r: Option<u64>)
        requires
            self.wf(),
        ensures
            r == (if self@.clips.contains_key(cliphash@) {
                Some(self@.clips[cliphash@])
            } else {
                None::<u64>
            }),
    {
        match self.all_clips.get(cliphash) {
            Some(owner) => Some(*owner),
            None => None,
        }
    }

    /// The bets placed on a clip in a round, if any were.
    pub fn bets(&self, roundid: u64, cliphash: &Vec<u8>) -> (r: Option<Vec<BetInfo>>)
        requires
            self.wf(),
        ensures
            match r {
                Some(v) => self@.bets.contains_key((roundid, cliphash@)) && v@ == self@.bets[(
                    roundid,
                    cliphash@,
                )],
                None => !self@.bets.contains_key((roundid, cliphash@)),
            },
    {
        let key = round_clip(roundid, cliphash);
        match self.bets_double_map.get(&key) {
            Some(v) => Some(copy_bets(v)),
            None => None,
        }
    }

    /// The amount bet in a round.
    pub fn roundtally(&self, roundid: u64) -> (r: u128)
        requires
            self.wf(),
        ensures
            r == self@.tally(roundid),
    {
        match self.round_tally.get(&roundid) {
            Some(t) => *t,
            None => ZeroDefault(),
        }
    }

    /// The amount bet on a clip in a round.
    pub fn roundcliptally(&self, roundid: u64, cliphash: &Vec<u8>) -> (r: u128)
        requires
            self.wf(),
        ensures
            r == self@.clip_tally(roundid, cliphash@),
    {
        let key = round_clip(roundid, cliphash);
        match self.round_clip_tally.get(&key) {
            Some(t) => *t,
            None => ZeroDefault(),
        }
    }

    /// Posts a clip as `sender`'s. A clip that was posted already is refused.
    pub fn post_clip(&mut self, sender: u64, cliphash: Vec<u8>) -> (r: Result<Event, Error>)
        requires
            old(self).wf(),
        ensures
            final(self).wf(),
            final(self)@ == old(self)@.post_clip_next(sender, cliphash@),
            old(self)@.clips.contains_key(cliphash@) ==> r == Err::<Event, Error>(
                Error::DuplicateClip,
            ),
            !old(self)@.clips.contains_key(cliphash@) ==> (r matches Ok(Event::ClipStored(who, h))
                && who == sender && h@ == cliphash@),
    {
        if self.all_clips.contains_key(&cliphash) {
            return Err(Error::DuplicateClip);
        }
        let key = copy_bytes(&cliphash);
        self.all_clips.insert(key, sender);
        assert(self@ =~= old(self)@.post_clip_next(sender, cliphash@));
        proof {
            lemma_consistent_same_books(old(self)@, self@);
        }
        Ok(Event::ClipStored(sender, cliphash))
    }

    /// Removes a clip; only the account that posted it may.
    pub fn rm_clip(&mut self, sender: u64, cliphash: Vec<u8>) -> (r: Result<Event, Error>)
        requires
            old(self).wf(),
        ensures
            final(self).wf(),
            final(self)@ == old(self)@.rm_clip_next(sender, cliphash@),
            match old(self)@.rm_clip_error(sender, cliphash@) {
                Some(e) => r == Err::<Event, Error>(e),
                None => r matches Ok(Event::ClipRemoved(h)) && h@ == cliphash@,
            },
    {
        let owner = match self.all_clips.get(&cliphash) {
            None => return Err(Error::NoClip),
            Some(acid) => *acid,
        };
        if owner != sender {
            return Err(Error::NotYours);
        }
        self.all_clips.remove(&cliphash);
        assert(self@ =~= old(self)@.rm_clip_next(sender, cliphash@));
        proof {
            lemma_consistent_same_books(old(self)@, self@);
        }
        Ok(Event::ClipRemoved(cliphash))
    }

    /// The pot account and the balance in the pot.
    pub fn pot<C: Currency>(&self, currency: &C) -> (r: (u64, u128))
        ensures
            r.0 == self@.pot_account,
            r.1 == pot_amount(currency.free_of(self@.pot_account), currency.minimum()),
            r.1 <= currency.free_of(self@.pot_account),
    {
        let account_id = self.account_id();
        let free = currency.free_balance(account_id);
        let minimum = currency.minimum_balance();
        (account_id, pot_balance(free, minimum))
    }

    /// Starts a song on a clip: makes sure that the pot account exists (crediting
    /// it with the minimum balance where it holds nothing) and reports the pot.
    pub fn start_song<C: Currency>(&self, currency: &mut C, sender: u64, cliphash: Vec<u8>) -> (r:
        Event)
        ensures
            pot_started(*old(currency), *final(currency), self@.pot_account),
            r matches Event::SongStarted(who, h, pot, amount) && who == sender && h@ == cliphash@
                && pot == self@.pot_account && amount == pot_amount(
                final(currency).free_of(self@.pot_account),
                final(currency).minimum(),
            ),
    {
        let clipbet_account = self.account_id();
        if currency.total_balance(clipbet_account) == 0 {
            let minimum = currency.minimum_balance();
            currency.deposit_creating(clipbet_account, minimum);
        }
        let potshow = self.pot(currency);
        Event::SongStarted(sender, cliphash, potshow.0, potshow.1)
    }

    /// Records a bet of `value` by `bettor` on a clip posted by `owner`, once the
    /// transfer of the bet into the pot has given `transfer`. A failed transfer
    /// leaves the storage as it was.
    pub fn settle_bet<E>(
        &mut self,
        owner: u64,
        bettor: u64,
        cliphash: Vec<u8>,
        roundid: u64,
        value: u128,
        transfer: Result<(), E>,
    ) -> (r: Result<Event, DispatchError<E>>)
        requires
            old(self).wf(),
            old(self)@.tally(roundid) + value <= u128::MAX,
        ensures
            final(self).wf(),
            match transfer {
                Ok(_) => {
                    &&& final(self)@ == old(self)@.bet_recorded(
                        owner,
                        bettor,
                        cliphash@,
                        roundid,
                        value,
                    )
                    &&& r matches Ok(Event::BetPlaced(h, v)) && h@ == cliphash@ && v == value
                },
                Err(e) => {
                    &&& final(self)@ == old(self)@
                    &&& r == Err::<Event, DispatchError<E>>(DispatchError::Currency(e))
                },
            },
    {
        match transfer {
            Err(e) => {
                return Err(DispatchError::Currency(e));
            },
            Ok(()) => {},
        }
        let ghost s = self@;
        let ghost clip = cliphash@;
        proof {
            assert(s.clip_tally(roundid, clip) <= s.tally(roundid));
        }
        let new_roundtally = self.roundtally(roundid) + value;
        let new_roundcliptally = self.roundcliptally(roundid, &cliphash) + value;
        self.round_tally.insert(roundid, new_roundtally);
        self.round_clip_tally.insert(round_clip(roundid, &cliphash), new_roundcliptally);
        let key = round_clip(roundid, &cliphash);
        let mut betsvec = match self.bets_double_map.remove(&key) {
            Some(v) => v,
            None => Vec::new(),
        };
        let new_bet = BetInfo { owner, better: bettor, betval: value };
        betsvec.push(new_bet);
        self.bets_double_map.insert(key, betsvec);
        proof {
            let t = s.bet_recorded(owner, bettor, clip, roundid, value);
            assert(self@.bets =~= t.bets);
            assert(self@ =~= t);
            law_bet_recorded_adds(s, owner, bettor, clip, roundid, value, roundid, clip);
        }
        Ok(Event::BetPlaced(cliphash, value))
    }

    /// Places a bet of `value` by `bettor` on a clip in a round: the bet is
    /// transferred into the pot and recorded with the clip's owner. A bet on a
    /// clip that was never posted is refused, and so is one whose transfer fails.
    pub fn place_bet<C: Currency>(
        &mut self,
        currency: &mut C,
        bettor: u64,
        cliphash: Vec<u8>,
        roundid: u64,
        value: u128,
    ) -> (r: Result<Event, DispatchError<C::Error>>)
        requires
            old(self).wf(),
            old(self)@.clips.contains_key(cliphash@) ==> old(self)@.tally(roundid) + value
                <= u128::MAX,
        ensures
            final(self).wf(),
            !old(self)@.clips.contains_key(cliphash@) ==> {
                &&& r == Err::<Event, DispatchError<C::Error>>(DispatchError::Module(Error::NoClip))
                &&& final(self)@ == old(self)@
                &&& *final(currency) == *old(currency)
            },
            old(self)@.clips.contains_key(cliphash@) ==> (r is Ok <==> old(currency).can_transfer(
                bettor,
                old(self)@.pot_account,
                value,
                ExistenceRequirement::KeepAlive,
            )),
            old(self)@.clips.contains_key(cliphash@) ==> match r {
                Ok(ev) => {
                    &&& final(self)@ == old(self)@.bet_recorded(
                        old(self)@.clips[cliphash@],
                        bettor,
                        cliphash@,
                        roundid,
                        value,
                    )
                    &&& ev matches Event::BetPlaced(h, v) && h@ == cliphash@ && v == value
                    &&& moved(*old(currency), *final(currency), bettor, old(self)@.pot_account, value)
                },
                Err(e) => {
                    &&& e is Currency
                    &&& final(self)@ == old(self)@
                    &&& *final(currency) == *old(currency)
                },
            },
    {
        let owner = match self.all_clips.get(&cliphash) {
            None => return Err(DispatchError::Module(Error::NoClip)),
            Some(acid) => *acid,
        };
        let pot = self.account_id();
        let transfer = currency.transfer(bettor, pot, value, ExistenceRequirement::KeepAlive);
        self.settle_bet(owner, bettor, cliphash, roundid, value, transfer)
    }

    /// Picks a winning clip in a round: computes each bet's reward (its share of
    /// the clip's tally, as a `Perbill`, of the round's tally) and the transfer
    /// call to the picker. A clip with no bets in the round is refused. A clip
    /// whose bets in the round are all of value zero has bets but a zero tally:
    /// it is accepted, and as a ratio over a zero tally is a whole `Perbill`,
    /// each of its bets is given the whole round's tally.
    pub fn choose_winner_clip(&self, picker: u64, cliphash: Vec<u8>, roundid: u64) -> (r: Result<
        WinnerSelection,
        Error,
    >)
        requires
            self.wf(),
        ensures
            self@.bets_on(roundid, cliphash@).len() == 0 ==> r == Err::<WinnerSelection, Error>(
                Error::NoBetsOnClip,
            ),
            self@.bets_on(roundid, cliphash@).len() != 0 ==> (r matches Ok(w) && {
                &&& w.round_clip_tally == self@.clip_tally(roundid, cliphash@)
                &&& w.round_tally == self@.tally(roundid)
                &&& w.rewards@ == self@.rewards(roundid, cliphash@)
                &&& w.transfer_call@ == transfer_call_hex(picker)
            }),
    {
        let key = round_clip(roundid, &cliphash);
        let betsvec = match self.bets_double_map.get(&key) {
            Some(v) => v,
            None => return Err(Error::NoBetsOnClip),
        };
        if betsvec.len() == 0 {
            return Err(Error::NoBetsOnClip);
        }
        let rctally = self.roundcliptally(roundid, &cliphash);
        let rtally = self.roundtally(roundid);
        let mut rewardsvec: Vec<u128> = Vec::new();
        let ghost want = self@.rewards(roundid, cliphash@);
        proof {
            assert(betsvec@ == self@.bets_on(roundid, cliphash@));
        }
        let mut i: usize = 0;
        while i < betsvec.len()
            invariant
                i <= betsvec@.len(),
                want.len() == betsvec@.len(),
                rctally == self@.clip_tally(roundid, cliphash@),
                rtally == self@.tally(roundid),
                want == self@.rewards(roundid, cliphash@),
                betsvec@ == self@.bets_on(roundid, cliphash@),
                rewardsvec@ == want.subrange(0, i as int),
            decreases betsvec@.len() - i,
        {
            let parts = perbill_from_rational(betsvec[i].betval, rctally);
            proof {
                lemma_perbill_parts_bounded(betsvec[i as int].betval, rctally);
            }
            let reward = perbill_mul(parts, rtally);
            rewardsvec.push(reward);
            i += 1;
            assert(rewardsvec@ =~= want.subrange(0, i as int));
        }
        assert(want.subrange(0, betsvec@.len() as int) =~= want);
        let transfer_call = encode_transfer_call_hex(picker);
        Ok(
            WinnerSelection {
                round_clip_tally: rctally,
                round_tally: rtally,
                rewards: rewardsvec,
                transfer_call,
            },
        )
    }
}

} // verus!
