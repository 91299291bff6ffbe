//! The round tracker: at most one live poll round per chat, with its vote
//! ledger and its flags.

use vstd::prelude::*;
use crate::keyed::{
    keyed,
    keys_unique,
    lemma_keyed_absent,
    lemma_keyed_lookup,
    lemma_keyed_push,
    lemma_keyed_update,
    lemma_keys_unique_push,
};
use crate::member::Member;

verus! {

/// The two polls of a round.
#[derive(Clone, Copy, Debug, PartialEq, Eq, Structural)]
pub enum PollSide {
    Entrants,
    Seconds,
}

/// The current selections of one member in one round.
#[derive(Clone, Debug)]
pub struct Ballot {
    pub member: Member,
    pub entrants: Vec<usize>,
    pub seconds: Vec<usize>,
}

impl Ballot {
    pub open spec fn side(&self, side: PollSide) -> Seq<usize> {
        match side {
            PollSide::Entrants => self.entrants@,
            PollSide::Seconds => self.seconds@,
        }
    }

    /// The member selected something in either poll.
    pub open spec fn spec_has_vote(&self) -> bool {
        self.entrants@.len() > 0 || self.seconds@.len() > 0
    }

    #[verifier::when_used_as_spec(spec_has_vote)]
    pub fn has_vote(&self) -> (r: bool)
        ensures
            r == self.spec_has_vote(),
    {
        self.entrants.len() > 0 || self.seconds.len() > 0
    }
}

pub open spec fn other_side(side: PollSide) -> PollSide {
    match side {
        PollSide::Entrants => PollSide::Seconds,
        PollSide::Seconds => PollSide::Entrants,
    }
}

pub open spec fn ballot_key() -> spec_fn(Ballot) -> u64 {
    |b: Ballot| b.member.id
}

/// `b` is the ballot of `member` after its selection in poll `side` became
/// `sel`, where `votes` held the ballots before.
pub open spec fn cast(
    votes: Map<u64, Ballot>,
    member: Member,
    side: PollSide,
    sel: Seq<usize>,
    b: Ballot,
) -> bool {
    &&& b.member == member
    &&& b.side(side) == sel
    &&& b.side(other_side(side)) == (if votes.contains_key(member.id) {
        votes[member.id].side(other_side(side))
    } else {
        Seq::empty()
    })
}

/// One lunch round of one chat.
#[derive(Debug)]
pub struct RoundState {
    pub chat_id: i64,
    pub entrants_poll_id: String,
    pub seconds_poll_id: String,
    /// Options of the entrants poll; the last one is the oversized marker.
    pub entrants: Vec<String>,
    /// Options of the seconds poll; the last one is the oversized marker.
    pub seconds: Vec<String>,
    /// One ballot per member who voted.
    pub ballots: Vec<Ballot>,
    pub first_vote_recorded: bool,
    pub last_voting_member: Option<Member>,
    pub call_made: bool,
    /// Members already credited with an oversized dish in this round.
    pub xl_credited: Vec<u64>,
}

impl RoundState {
    pub open spec fn wf(&self) -> bool {
        &&& self.entrants@.len() >= 1
        &&& self.seconds@.len() >= 1
        &&& keys_unique(self.ballots@, ballot_key())
        &&& self.call_made ==> self.last_voting_member.is_some()
    }

    /// The ballots by member id.
    pub open spec fn votes(&self) -> Map<u64, Ballot> {
        keyed(self.ballots@, ballot_key())
    }

    pub open spec fn options(&self, side: PollSide) -> Seq<String> {
        match side {
            PollSide::Entrants => self.entrants@,
            PollSide::Seconds => self.seconds@,
        }
    }

    /// Which poll of the round `poll_id` names, if any.
    pub open spec fn poll_side(&self, poll_id: Seq<char>) -> Option<PollSide> {
        if poll_id == self.entrants_poll_id@ {
            Some(PollSide::Entrants)
        } else if poll_id == self.seconds_poll_id@ {
            Some(PollSide::Seconds)
        } else {
            None
        }
    }

    /// A round that nobody has voted in yet.
    pub open spec fn is_fresh(&self) -> bool {
        &&& self.ballots@.len() == 0
        &&& !self.first_vote_recorded
        &&& self.last_voting_member.is_none()
        &&& !self.call_made
        &&& self.xl_credited@.len() == 0
    }

    fn side_of(&self, poll_id: &String) -> (r: Option<PollSide>)
        ensures
            r == self.poll_side(poll_id@),
    {
        if *poll_id == self.entrants_poll_id {
            Some(PollSide::Entrants)
        } else if *poll_id == self.seconds_poll_id {
            Some(PollSide::Seconds)
        } else {
            None
        }
    }

    fn find_ballot(&self, id: u64) -> (r: Option<usize>)
        ensures
            match r {
                Some(k) => k < self.ballots@.len() && self.ballots@[k as int].member.id == id,
                None => forall|k: int|
                    0 <= k < self.ballots@.len() ==> self.ballots@[k].member.id != id,
            },
    {
        let mut k: usize = 0;
        while k < self.ballots.len()
            invariant
                k <= self.ballots@.len(),
                forall|q: int| 0 <= q < k ==> self.ballots@[q].member.id != id,
            decreases self.ballots@.len() - k,
        {
            if self.ballots[k].member.id == id {
                return Some(k);
            }
            k += 1;
        }
        None
    }

    /// Notes that the members `ids` were credited with an oversized dish.
    fn extend_credited(&mut self, ids: &Vec<u64>)
        ensures
            *final(self) == (RoundState { xl_credited: final(self).xl_credited, ..*old(self) }),
            final(self).xl_credited@ == old(self).xl_credited@ + ids@,
    {
        let mut k: usize = 0;
        while k < ids.len()
            invariant
                k <= ids@.len(),
                *self == (RoundState { xl_credited: self.xl_credited, ..*old(self) }),
                self.xl_credited@ == old(self).xl_credited@ + ids@.subrange(0, k as int),
            decreases ids@.len() - k,
        {
            self.xl_credited.push(ids[k]);
            k += 1;
            proof {
                assert(ids@.subrange(0, k as int) =~= ids@.subrange(0, k - 1) + seq![ids@[k - 1]]);
            }
        }
        proof {
            assert(ids@.subrange(0, ids@.len() as int) =~= ids@);
        }
    }

    /// Replaces the selection of `member` in poll `side` by `selection`.
    fn record_selection(&mut self, member: &Member, side: PollSide, selection: Vec<usize>)
        requires
            old(self).wf(),
        ensures
            final(self).wf(),
            *final(self) == (RoundState { ballots: final(self).ballots, ..*old(self) }),
            final(self).votes() == old(self).votes().insert(
                member.id,
                final(self).votes()[member.id],
            ),
            cast(old(self).votes(), *member, side, selection@, final(self).votes()[member.id]),
            ballots_after(
                old(self).ballots@,
                final(self).ballots@,
                member.id,
                final(self).votes()[member.id],
            ),
    {
        let ghost s0 = self.ballots@;
        proof {
            lemma_keyed_lookup(s0, ballot_key());
        }
        match self.find_ballot(member.id) {
            Some(k) => {
                proof {
                    assert(keyed(s0, ballot_key()).contains_key(ballot_key()(s0[k as int])));
                }
                self.ballots[k].member = member.duplicate();
                match side {
                    PollSide::Entrants => self.ballots[k].entrants = selection,
                    PollSide::Seconds => self.ballots[k].seconds = selection,
                }
                proof {
                    let b = self.ballots@[k as int];
                    assert(self.ballots@ =~= s0.update(k as int, b));
                    lemma_keyed_update(s0, ballot_key(), k as int, b);
                    assert(keyed(self.ballots@, ballot_key())[member.id] == b);
                    assert forall|q: int| 0 <= q < s0.len() implies self.ballots@[q] == (
                    if s0[q].member.id == member.id {
                        b
                    } else {
                        s0[q]
                    }) by {
                        if q != k {
                            assert(ballot_key()(s0[q]) != ballot_key()(s0[k as int]));
                        }
                    }
                }
            },
            None => {
                let b = match side {
                    PollSide::Entrants => Ballot {
                        member: member.duplicate(),
                        entrants: selection,
                        seconds: Vec::new(),
                    },
                    PollSide::Seconds => Ballot {
                        member: member.duplicate(),
                        entrants: Vec::new(),
                        seconds: selection,
                    },
                };
                proof {
                    lemma_keyed_absent(s0, ballot_key(), member.id);
                    lemma_keys_unique_push(s0, ballot_key(), b);
                    lemma_keyed_push(s0, ballot_key(), b);
                }
                self.ballots.push(b);
                proof {
                    assert(keyed(self.ballots@, ballot_key())[member.id] == b);
                }
            },
        }
    }
}

/// Ballot list `s1` is `s0` with the ballot of member `id` replaced in
/// place by `b`, or with `b` appended when `id` had none.
pub open spec fn ballots_after(s0: Seq<Ballot>, s1: Seq<Ballot>, id: u64, b: Ballot) -> bool {
    if exists|k: int| 0 <= k < s0.len() && s0[k].member.id == id {
        &&& s1.len() == s0.len()
        &&& forall|k: int|
            0 <= k < s0.len() ==> s1[k] == (if s0[k].member.id == id {
                b
            } else {
                s0[k]
            })
    } else {
        s1 == s0.push(b)
    }
}

pub open spec fn round_key() -> spec_fn(RoundState) -> i64 {
    |r: RoundState| r.chat_id
}

/// `r1` is round `r0` after `member` set its selection in poll `side` to `sel`.
pub open spec fn voted(
    r0: RoundState,
    r1: RoundState,
    member: Member,
    side: PollSide,
    sel: Seq<usize>,
) -> bool {
    &&& r1 == (RoundState {
        ballots: r1.ballots,
        first_vote_recorded: true,
        last_voting_member: Some(member),
        ..r0
    })
    &&& r1.votes() == r0.votes().insert(member.id, r1.votes()[member.id])
    &&& cast(r0.votes(), member, side, sel, r1.votes()[member.id])
    &&& ballots_after(r0.ballots@, r1.ballots@, member.id, r1.votes()[member.id])
}

/// The live round of each chat.
pub struct RoundTracker {
    rounds: Vec<RoundState>,
}

impl View for RoundTracker {
    type V = Map<i64, RoundState>;

    closed spec fn view(&self) -> Map<i64, RoundState> {
        keyed(self.rounds@, round_key())
    }
}

impl RoundTracker {
    pub closed spec fn wf(&self) -> bool {
        &&& keys_unique(self.rounds@, round_key())
        &&& forall|i: int| 0 <= i < self.rounds@.len() ==> #[trigger] self.rounds@[i].wf()
    }

    pub fn new() -> (r: RoundTracker)
        ensures
            r.wf(),
            r@ == Map::<i64, RoundState>::empty(),
    {
        RoundTracker { rounds: Vec::new() }
    }

    fn find_chat(&self, chat: i64) -> (r: Option<usize>)
        requires
            self.wf(),
        ensures
            match r {
                Some(i) => i < self.rounds@.len() && self.rounds@[i as int].chat_id == chat
                    && self@.contains_key(chat) && self@[chat] == self.rounds@[i as int],
                None => !self@.contains_key(chat),
            },
    {
        let mut i: usize = 0;
        while i < self.rounds.len()
            invariant
                self.wf(),
                i <= self.rounds@.len(),
                forall|j: int| 0 <= j < i ==> self.rounds@[j].chat_id != chat,
            decreases self.rounds@.len() - i,
        {
            if self.rounds[i].chat_id == chat {
                proof {
                    lemma_keyed_lookup(self.rounds@, round_key());
                    assert(keyed(self.rounds@, round_key()).contains_key(
                        round_key()(self.rounds@[i as int]),
                    ));
                }
                return Some(i);
            }
            i += 1;
        }
        proof {
            lemma_keyed_absent(self.rounds@, round_key(), chat);
        }
        None
    }

    /// The live round of `chat`, if any.
    pub fn get_round(&self, chat: i64) -> (r: Option<&RoundState>)
        requires
            self.wf(),
        ensures
            match r {
                Some(x) => self@.contains_key(chat) && *x == self@[chat] && x.wf(),
                None => !self@.contains_key(chat),
            },
    {
        match self.find_chat(chat) {
            Some(i) => Some(&self.rounds[i]),
            None => None,
        }
    }

    /// Replaces whatever round `chat` had by `round`.
    fn put_round(&mut self, round: RoundState)
        requires
            old(self).wf(),
            round.wf(),
        ensures
            final(self).wf(),
            final(self)@ == old(self)@.insert(round.chat_id, round),
    {
        let ghost s0 = self.rounds@;
        match self.find_chat(round.chat_id) {
            Some(i) => {
                proof {
                    lemma_keyed_update(s0, round_key(), i as int, round);
                }
                self.rounds.set(i, round);
            },
            None => {
                proof {
                    lemma_keyed_lookup(s0, round_key());
                    assert forall|j: int| 0 <= j < s0.len() implies round_key()(s0[j])
                        != round_key()(round) by {
                        if round_key()(s0[j]) == round_key()(round) {
                            assert(keyed(s0, round_key()).contains_key(round_key()(s0[j])));
                        }
                    }
                    lemma_keys_unique_push(s0, round_key(), round);
                    lemma_keyed_push(s0, round_key(), round);
                }
                self.rounds.push(round);
            },
        }
    }

    /// Starts a fresh round for `chat`, discarding the one it had.
    pub fn start_round(
        &mut self,
        chat: i64,
        entrants: Vec<String>,
        seconds: Vec<String>,
        entrants_poll_id: String,
        seconds_poll_id: String,
    )
        requires
            old(self).wf(),
            entrants@.len() >= 1,
            seconds@.len() >= 1,
        ensures
            final(self).wf(),
            final(self)@ == old(self)@.insert(chat, final(self)@[chat]),
            final(self)@[chat].is_fresh(),
            final(self)@[chat].chat_id == chat,
            final(self)@[chat].entrants == entrants,
            final(self)@[chat].seconds == seconds,
            final(self)@[chat].entrants_poll_id == entrants_poll_id,
            final(self)@[chat].seconds_poll_id == seconds_poll_id,
    {
        let round = RoundState {
            chat_id: chat,
            entrants_poll_id,
            seconds_poll_id,
            entrants,
            seconds,
            ballots: Vec::new(),
            first_vote_recorded: false,
            last_voting_member: None,
            call_made: false,
            xl_credited: Vec::new(),
        };
        proof {
            assert(keys_unique(round.ballots@, ballot_key()));
        }
        self.put_round(round);
    }

    /// The chat whose live round runs the poll `poll_id`, and which of its
    /// two polls that is.
    pub fn locate(&self, poll_id: &String) -> (r: Option<(i64, PollSide)>)
        requires
            self.wf(),
        ensures
            match r {
                Some((c, side)) => self@.contains_key(c) && self@[c].poll_side(poll_id@) == Some(
                    side,
                ),
                None => forall|c: i64| #[trigger]
                    self@.contains_key(c) ==> self@[c].poll_side(poll_id@).is_none(),
            },
    {
        let ghost s = self.rounds@;
        proof {
            lemma_keyed_lookup(s, round_key());
        }
        let mut i: usize = 0;
        while i < self.rounds.len()
            invariant
                s == self.rounds@,
                self.wf(),
                i <= s.len(),
                forall|j: int| 0 <= j < i ==> (#[trigger] s[j]).poll_side(poll_id@).is_none(),
            decreases s.len() - i,
        {
            match self.rounds[i].side_of(poll_id) {
                Some(side) => {
                    proof {
                        lemma_keyed_lookup(s, round_key());
                        assert(keyed(s, round_key()).contains_key(round_key()(s[i as int])));
                    }
                    return Some((self.rounds[i].chat_id, side));
                },
                None => {},
            }
            i += 1;
        }
        proof {
            assert forall|c: i64| #[trigger] self@.contains_key(c) implies self@[c].poll_side(
                poll_id@,
            ).is_none() by {
                let j = choose|j: int| 0 <= j < s.len() && round_key()(s[j]) == c;
                assert(keyed(s, round_key()).contains_key(round_key()(s[j])));
            }
        }
        None
    }

    /// Records that `member` set its selection in poll `side` of the round of
    /// `chat` to `selection`.
    pub fn record_vote(&mut self, chat: i64, member: &Member, side: PollSide, selection: Vec<usize>)
        requires
            old(self).wf(),
            old(self)@.contains_key(chat),
        ensures
            final(self).wf(),
            final(self)@ == old(self)@.insert(chat, final(self)@[chat]),
            voted(old(self)@[chat], final(self)@[chat], *member, side, selection@),
    {
        match self.find_chat(chat) {
            Some(i) => {
                let ghost s0 = self.rounds@;
                self.rounds[i].record_selection(member, side, selection);
                self.rounds[i].first_vote_recorded = true;
                self.rounds[i].last_voting_member = Some(member.duplicate());
                proof {
                    let r = self.rounds@[i as int];
                    assert(self.rounds@ =~= s0.update(i as int, r));
                    lemma_keyed_update(s0, round_key(), i as int, r);
                    assert forall|j: int| 0 <= j < self.rounds@.len() implies #[trigger]
                        self.rounds@[j].wf() by {
                        if j != i {
                            assert(self.rounds@[j] == s0[j]);
                        }
                    }
                }
            },
            None => {},
        }
    }

    /// Marks the call of `chat`'s round as made and hands back the member
    /// who voted last, unless there is no round, nobody voted, or the call
    /// was already made; then nothing changes.
    pub fn mark_call_made(&mut self, chat: i64) -> (r: Option<Member>)
        requires
            old(self).wf(),
        ensures
            final(self).wf(),
            if old(self)@.contains_key(chat) && !old(self)@[chat].call_made
                && old(self)@[chat].last_voting_member.is_some() {
                &&& r == old(self)@[chat].last_voting_member
                &&& final(self)@ == old(self)@.insert(
                    chat,
                    RoundState { call_made: true, ..old(self)@[chat] },
                )
            } else {
                r.is_none() && final(self)@ == old(self)@
            },
    {
        match self.find_chat(chat) {
            Some(i) => {
                if self.rounds[i].call_made {
                    return None;
                }
                match &self.rounds[i].last_voting_member {
                    Some(m) => {
                        let last = m.duplicate();
                        let ghost s0 = self.rounds@;
                        proof {
                            assert(s0[i as int].wf());
                        }
                        self.rounds[i].call_made = true;
                        proof {
                            let r = self.rounds@[i as int];
                            assert(r == RoundState { call_made: true, ..s0[i as int] });
                            assert(self.rounds@ =~= s0.update(i as int, r));
                            lemma_keyed_update(s0, round_key(), i as int, r);
                            assert forall|j: int| 0 <= j < self.rounds@.len() implies #[trigger]
                        self.rounds@[j].wf() by {
                                if j != i {
                                    assert(self.rounds@[j] == s0[j]);
                                }
                            }
                        }
                        Some(last)
                    },
                    None => None,
                }
            },
            None => None,
        }
    }

    /// Adds `ids` to the members of `chat`'s round already credited with an
    /// oversized dish.
    pub fn note_xl_credited(&mut self, chat: i64, ids: &Vec<u64>)
        requires
            old(self).wf(),
            old(self)@.contains_key(chat),
        ensures
            final(self).wf(),
            final(self)@ == old(self)@.insert(
                chat,
                RoundState { xl_credited: final(self)@[chat].xl_credited, ..old(self)@[chat] },
            ),
            final(self)@[chat].xl_credited@ == old(self)@[chat].xl_credited@ + ids@,
    {
        match self.find_chat(chat) {
            Some(i) => {
                let ghost s0 = self.rounds@;
                proof {
                    assert(s0[i as int].wf());
                }
                self.rounds[i].extend_credited(ids);
                proof {
                    let r = self.rounds@[i as int];
                    assert(self.rounds@ =~= s0.update(i as int, r));
                    lemma_keyed_update(s0, round_key(), i as int, r);
                    assert forall|j: int| 0 <= j < self.rounds@.len() implies #[trigger]
                        self.rounds@[j].wf() by {
                        if j != i {
                            assert(self.rounds@[j] == s0[j]);
                        }
                    }
                }
            },
            None => {},
        }
    }
}

} // verus!
