//! The clip-registration pallet: each account stores its latest clip, and
//! accounts join a list of members once.
use vstd::prelude::*;
use crate::keymap::{KeyMap, copy_bytes};

verus! {

/// The message of the error that a second join gives.
pub open spec fn already_member_message() -> Seq<char> {
    "already a member, can't join"@
}

/// The pallet's events.
#[derive(Clone, Copy, Debug, PartialEq, Eq, Structural)]
pub enum Event {
    /// A clip was stored for `user`.
    ClipStored { user: u64 },
    /// Stuff was got for an account.
    GotStuff(u64),
    /// An account joined the members.
    NewMember(u64),
}

/// The pallet's errors.
#[derive(Clone, Copy, Debug, PartialEq, Eq, Structural)]
pub enum Error {
    /// Error names should be descriptive.
    NoneValue,
    /// Errors should have helpful documentation associated with them.
    StorageOverflow,
}

/// Why a call failed: an error of the pallet, or another error with a message.
#[derive(Clone, Copy, Debug, PartialEq, Eq)]
pub enum DispatchError {
    Module(Error),
    Other(&'static str),
}

/// The pallet's storage, as mathematical values.
#[verifier::ext_equal]
pub struct PalletState {
    /// Account to the clip it stored last.
    pub clip_info: Map<u64, Seq<u8>>,
    /// The members, in the order they joined.
    pub members: Seq<u64>,
}

impl PalletState {
    /// The storage after `join_all_members` by `who`.
    pub open spec fn join_next(self, who: u64) -> PalletState {
        if self.members.contains(who) {
            self
        } else {
            PalletState { members: self.members.push(who), ..self }
        }
    }
}

/// An account that has joined is a member, and joining again changes nothing.
pub proof fn law_join_once(s: PalletState, who: u64)
    ensures
        s.join_next(who).members.contains(who),
        s.join_next(who).join_next(who) == s.join_next(who),
{
    if !s.members.contains(who) {
        assert(s.join_next(who).members[s.members.len() as int] == who);
    }
}

/// A join keeps every earlier member where it stood: a new member is appended
/// after all of them, the list grows by exactly one, and a second join leaves
/// the list as it was.
pub proof fn law_join_appends(s: PalletState, who: u64, i: int)
    ensures
        !s.members.contains(who) ==> {
            &&& s.join_next(who).members.len() == s.members.len() + 1
            &&& s.join_next(who).members[s.members.len() as int] == who
            &&& (0 <= i < s.members.len() ==> s.join_next(who).members[i] == s.members[i])
        },
        s.members.contains(who) ==> s.join_next(who).members == s.members,
        0 <= i < s.members.len() ==> s.join_next(who).members.contains(s.members[i]),
        s.join_next(who).clip_info == s.clip_info,
{
    if 0 <= i < s.members.len() {
        if !s.members.contains(who) {
            assert(s.join_next(who).members[i] == s.members[i]);
        }
    }
}

/// The clip-registration pallet's storage.
pub struct Pallet {
    account_to_clip_info: KeyMap<u64, Vec<u8>>,
    all_members: Vec<u64>,
}

impl View for Pallet {
    type V = PalletState;

    closed spec fn view(&self) -> PalletState {
        PalletState {
            clip_info: self.account_to_clip_info@.map_values(|v: Vec<u8>| v@),
            members: self.all_members@,
        }
    }
}

impl Pallet {
    /// Well-formedness: the map is well formed and no account is a member twice.
    pub closed spec fn wf(&self) -> bool {
        &&& self.account_to_clip_info.wf()
        &&& self.all_members@.no_duplicates()
    }

    /// A pallet with empty storage.
    pub fn new() -> (p: Self)
        ensures
            p.wf(),
            p@.clip_info == Map::<u64, Seq<u8>>::empty(),
            p@.members == Seq::<u64>::empty(),
    {
        let p = Pallet { account_to_clip_info: KeyMap::new(), all_members: Vec::new() };
        assert(p@.clip_info =~= Map::<u64, Seq<u8>>::empty());
        p
    }

    /// The clip that an account stored last, if any.
    pub fn info(&self, who: u64) -> (r: Option<Vec<u8>>)
        requires
            self.wf(),
        ensures
            match r {
                Some(v) => self@.clip_info.contains_key(who) && v@ == self@.clip_info[who],
                None => !self@.clip_info.contains_key(who),
            },
    {
        match self.account_to_clip_info.get(&who) {
            Some(v) => Some(copy_bytes(v)),
            None => None,
        }
    }

    /// The members, in the order they joined.
    pub fn all_members(&self) -> (r: Vec<u64>)
        ensures
            r@ == self@.members,
    {
        let mut r: Vec<u64> = Vec::new();
        let mut i: usize = 0;
        while i < self.all_members.len()
            invariant
                i <= self.all_members@.len(),
                r@ == self.all_members@.subrange(0, i as int),
            decreases self.all_members@.len() - i,
        {
            r.push(self.all_members[i]);
            i += 1;
            assert(r@ =~= self.all_members@.subrange(0, i as int));
        }
        assert(self.all_members@.subrange(0, self.all_members@.len() as int)
            =~= self.all_members@);
        r
    }

    /// Stores `cliphash` as `sender`'s clip, in place of any earlier one.
    pub fn post_clip(&mut self, sender: u64, cliphash: Vec<u8>) -> (r: Event)
        requires
            old(self).wf(),
        ensures
            final(self).wf(),
            final(self)@ == (PalletState {
                clip_info: old(self)@.clip_info.insert(sender, cliphash@),
                ..old(self)@
            }),
            r == (Event::ClipStored { user: sender }),
    {
        let ghost clip = cliphash@;
        self.account_to_clip_info.insert(sender, cliphash);
        assert(self@.clip_info =~= old(self)@.clip_info.insert(sender, clip));
        Event::ClipStored { user: sender }
    }

    /// In every well-formed pallet no account is a member twice.
    pub proof fn law_members_distinct(p: Pallet)
        requires
            p.wf(),
        ensures
            p@.members.no_duplicates(),
    {
    }

    /// Whether an account is a member.
    pub fn is_member(&self, who: &u64) -> (r: bool)
        ensures
            r == self@.members.contains(*who),
    {
        let mut i: usize = 0;
        while i < self.all_members.len()
            invariant
                i <= self.all_members@.len(),
                forall|j: int| 0 <= j < i ==> self.all_members@[j] != *who,
            decreases self.all_members@.len() - i,
        {
            if self.all_members[i] == *who {
                assert(self.all_members@[i as int] == *who);
                return true;
            }
            i += 1;
        }
        false
    }

    /// Joins the members; an account that is one already is refused.
    pub fn join_all_members(&mut self, new_member: u64) -> (r: Result<Event, DispatchError>)
        requires
            old(self).wf(),
        ensures
            final(self).wf(),
            final(self)@ == old(self)@.join_next(new_member),
            old(self)@.members.contains(new_member) ==> (r matches Err(DispatchError::Other(m))
                && m@ == already_member_message()),
            !old(self)@.members.contains(new_member) ==> r == Ok::<Event, DispatchError>(
                Event::NewMember(new_member),
            ),
            !old(self)@.members.contains(new_member) ==> final(self)@.members == old(
                self,
            )@.members.push(new_member),
            old(self)@.members.contains(new_member) ==> final(self)@.members == old(
                self,
            )@.members,
            final(self)@.clip_info == old(self)@.clip_info,
    {
        if self.is_member(&new_member) {
            let m = "already a member, can't join";
            proof {
                reveal_strlit("already a member, can't join");
            }
            return Err(DispatchError::Other(m));
        }
        self.all_members.push(new_member);
        proof {
            assert(self@ =~= old(self)@.join_next(new_member));
            assert forall|a: int, b: int|
                0 <= a < self.all_members@.len() && 0 <= b < self.all_members@.len() && a
                    != b implies self.all_members@[a] != self.all_members@[b] by {
                let n = old(self).all_members@.len() as int;
                if a == n {
                    assert(old(self)@.members[b] == self.all_members@[b]);
                } else if b == n {
                    assert(old(self)@.members[a] == self.all_members@[a]);
                }
            }
        }
        Ok(Event::NewMember(new_member))
    }
}

} // verus!
