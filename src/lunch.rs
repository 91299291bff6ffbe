//! The lunch coordinator: the operations members trigger, each applied to
//! the round tracker and the score ledger together.

use vstd::prelude::*;
use crate::member::Member;
use crate::round::{voted, PollSide, RoundState, RoundTracker};
use crate::score::{bump_each, Metric, RankEntry, ScoreLedger, ScoreRecord};
use crate::tally::{
    entry_view,
    oversized_due,
    oversized_members,
    tally,
    tally_spec,
    xl_due,
    xl_members,
    TallyEntry,
};

verus! {

/// Why an operation could not do its work.
#[derive(Clone, Copy, Debug, PartialEq, Eq, Structural)]
pub enum LunchError {
    /// No usable menu: it could not be had, or a poll got no options.
    MenuUnavailable,
    /// The chat has no live round.
    NoActiveRound,
    /// Nobody has voted in the chat's round.
    NoVotes,
    /// The call of the chat's round was already made.
    AlreadyCalled,
}

/// What became of a vote-change event.
#[derive(Clone, Copy, Debug, PartialEq, Eq, Structural)]
pub enum VoteOutcome {
    /// No live round runs that poll; the event was dropped.
    NoMatchingRound,
    /// The call was already made: the vote was dropped and counted as late.
    TooLate { chat_id: i64 },
    /// The vote now stands in the ballot of the member.
    Recorded { chat_id: i64, side: PollSide },
}

/// What "show order" hands back.
#[derive(Debug)]
pub struct OrderSummary {
    pub entrants: Vec<TallyEntry>,
    pub seconds: Vec<TallyEntry>,
    /// Members who asked for an oversized dish in either poll.
    pub oversized: Vec<Member>,
    /// Members credited with an oversized dish by this call.
    pub newly_oversized: Vec<Member>,
}

/// Relies on rand's `Rng::gen_range` on `thread_rng()`: a value drawn from
/// `0..n`; it panics only on an empty range, which `requires` excludes.
#[verifier::external_body]
fn random_below(n: usize) -> (r: usize)
    requires
        n > 0,
    ensures
        r < n,
{
    rand::Rng::gen_range(&mut rand::thread_rng(), 0..n)
}

/// The ledger after a vote that was recorded: the retraction counter moves
/// when the selection is empty, the fastest-voter counter when it is the
/// round's first vote.
pub open spec fn vote_credits(
    l: Map<(i64, u64), ScoreRecord>,
    chat: i64,
    member: Member,
    first_done: bool,
    retracted: bool,
) -> Map<(i64, u64), ScoreRecord> {
    ScoreLedger::credited(
        ScoreLedger::credited(l, chat, member, Metric::Retracts, retracted),
        chat,
        member,
        Metric::Fastest,
        !first_done,
    )
}

/// Rounds `r1` and ledger `l1` are what a vote-change event of `member`
/// with selection `sel` on poll `pid` makes of `r0` and `l0`, with outcome
/// `out`.
pub open spec fn vote_step(
    r0: Map<i64, RoundState>,
    l0: Map<(i64, u64), ScoreRecord>,
    pid: Seq<char>,
    member: Member,
    sel: Seq<usize>,
    out: VoteOutcome,
    r1: Map<i64, RoundState>,
    l1: Map<(i64, u64), ScoreRecord>,
) -> bool {
    match out {
        VoteOutcome::NoMatchingRound => {
            &&& forall|c: i64| #[trigger] r0.contains_key(c) ==> r0[c].poll_side(pid).is_none()
            &&& r1 == r0
            &&& l1 == l0
        },
        VoteOutcome::TooLate { chat_id } => {
            &&& r0.contains_key(chat_id)
            &&& r0[chat_id].poll_side(pid).is_some()
            &&& r0[chat_id].call_made
            &&& r1 == r0
            &&& l1 == ScoreLedger::bumped(l0, chat_id, member, Metric::OutOfTime)
        },
        VoteOutcome::Recorded { chat_id, side } => {
            &&& r0.contains_key(chat_id)
            &&& r0[chat_id].poll_side(pid) == Some(side)
            &&& !r0[chat_id].call_made
            &&& r1 == r0.insert(chat_id, r1[chat_id])
            &&& voted(r0[chat_id], r1[chat_id], member, side, sel)
            &&& l1 == vote_credits(
                l0,
                chat_id,
                member,
                r0[chat_id].first_vote_recorded,
                sel.len() == 0,
            )
        },
    }
}

/// Rounds `r1` and ledger `l1` are what starting a round in `chat` by
/// `starter` with the given options and polls makes of `r0` and `l0`, with
/// outcome `out`.
pub open spec fn start_step(
    r0: Map<i64, RoundState>,
    l0: Map<(i64, u64), ScoreRecord>,
    chat: i64,
    starter: Member,
    entrants: Vec<String>,
    seconds: Vec<String>,
    entrants_poll_id: String,
    seconds_poll_id: String,
    out: Result<(), LunchError>,
    r1: Map<i64, RoundState>,
    l1: Map<(i64, u64), ScoreRecord>,
) -> bool {
    if entrants@.len() == 0 || seconds@.len() == 0 {
        &&& out == Err::<(), LunchError>(LunchError::MenuUnavailable)
        &&& r1 == r0
        &&& l1 == l0
    } else {
        let nr = r1[chat];
        &&& out == Ok::<(), LunchError>(())
        &&& r1 == r0.insert(chat, nr)
        &&& nr.is_fresh()
        &&& nr.chat_id == chat
        &&& nr.entrants == entrants
        &&& nr.seconds == seconds
        &&& nr.entrants_poll_id == entrants_poll_id
        &&& nr.seconds_poll_id == seconds_poll_id
        &&& l1 == ScoreLedger::bumped(l0, chat, starter, Metric::PollsMade)
    }
}

/// Rounds `r1` and ledger `l1` are what "call made" by `caller` in `chat`
/// makes of `r0` and `l0`, with outcome `out`.
pub open spec fn call_step(
    r0: Map<i64, RoundState>,
    l0: Map<(i64, u64), ScoreRecord>,
    chat: i64,
    caller: Member,
    out: Result<Member, LunchError>,
    r1: Map<i64, RoundState>,
    l1: Map<(i64, u64), ScoreRecord>,
) -> bool {
    if !r0.contains_key(chat) {
        out == Err::<Member, LunchError>(LunchError::NoActiveRound) && r1 == r0 && l1 == l0
    } else if r0[chat].call_made {
        out == Err::<Member, LunchError>(LunchError::AlreadyCalled) && r1 == r0 && l1 == l0
    } else if r0[chat].last_voting_member.is_none() {
        out == Err::<Member, LunchError>(LunchError::NoVotes) && r1 == r0 && l1 == l0
    } else {
        let slow = r0[chat].last_voting_member.unwrap();
        &&& out == Ok::<Member, LunchError>(slow)
        &&& r1 == r0.insert(chat, RoundState { call_made: true, ..r0[chat] })
        &&& l1 == ScoreLedger::bumped(
            ScoreLedger::bumped(l0, chat, caller, Metric::CallsMade),
            chat,
            slow,
            Metric::Slowest,
        )
    }
}

pub open spec fn member_id() -> spec_fn(Member) -> u64 {
    |m: Member| m.id
}

fn member_ids(ms: &Vec<Member>) -> (r: Vec<u64>)
    ensures
        r@ == ms@.map_values(member_id()),
{
    let mut out: Vec<u64> = Vec::new();
    let mut k: usize = 0;
    while k < ms.len()
        invariant
            k <= ms@.len(),
            out@ == ms@.subrange(0, k as int).map_values(member_id()),
        decreases ms@.len() - k,
    {
        out.push(ms[k].id);
        k += 1;
        proof {
            assert(out@ =~= ms@.subrange(0, k as int).map_values(member_id()));
        }
    }
    proof {
        assert(ms@.subrange(0, ms@.len() as int) =~= ms@);
    }
    out
}

/// Rounds `r1` and ledger `l1` are what "show order" in `chat` makes of `r0`
/// and `l0`, handing back `summary`.
pub open spec fn show_step(
    r0: Map<i64, RoundState>,
    l0: Map<(i64, u64), ScoreRecord>,
    chat: i64,
    summary: OrderSummary,
    r1: Map<i64, RoundState>,
    l1: Map<(i64, u64), ScoreRecord>,
) -> bool {
    let round = r0[chat];
    let due = xl_due(round.ballots@, round);
    &&& r0.contains_key(chat)
    &&& summary.entrants@.map_values(entry_view()) == tally_spec(round, PollSide::Entrants)
    &&& summary.seconds@.map_values(entry_view()) == tally_spec(round, PollSide::Seconds)
    &&& summary.oversized@ == xl_members(round.ballots@, round)
    &&& summary.newly_oversized@ == due
    &&& r1 == r0.insert(chat, RoundState { xl_credited: r1[chat].xl_credited, ..round })
    &&& r1[chat].xl_credited@ == round.xl_credited@ + due.map_values(member_id())
    &&& l1 == bump_each(l0, chat, due, Metric::XlDishes)
}

/// The members of the first ballots of `s` who selected anything, in
/// ballot order.
pub open spec fn voters(s: Seq<crate::round::Ballot>) -> Seq<Member>
    decreases s.len(),
{
    if s.len() == 0 {
        Seq::empty()
    } else if s.last().spec_has_vote() {
        voters(s.drop_last()).push(s.last().member)
    } else {
        voters(s.drop_last())
    }
}

/// Everything the coordinator keeps: the live rounds and the scores.
pub struct LunchState {
    pub rounds: RoundTracker,
    pub scores: ScoreLedger,
}

impl LunchState {
    pub open spec fn wf(&self) -> bool {
        self.rounds.wf() && self.scores.wf()
    }

    pub fn new() -> (r: LunchState)
        ensures
            r.wf(),
            r.rounds@ == Map::<i64, RoundState>::empty(),
            r.scores@ == Map::<(i64, u64), ScoreRecord>::empty(),
    {
        LunchState { rounds: RoundTracker::new(), scores: ScoreLedger::new() }
    }

    /// A coordinator with no live round over the saved `scores`.
    pub fn with_scores(scores: ScoreLedger) -> (r: LunchState)
        requires
            scores.wf(),
        ensures
            r.wf(),
            r.rounds@ == Map::<i64, RoundState>::empty(),
            r.scores@ == scores@,
    {
        LunchState { rounds: RoundTracker::new(), scores }
    }

    /// Notes that `member` was seen in `chat`.
    pub fn touch(&mut self, chat: i64, member: &Member)
        requires
            old(self).wf(),
        ensures
            final(self).wf(),
            final(self).rounds@ == old(self).rounds@,
            final(self).scores@ == ScoreLedger::touched(old(self).scores@, chat, *member),
    {
        self.scores.touch(chat, member);
    }

    /// `member` brought their own lunch to `chat` today.
    pub fn bring_item(&mut self, chat: i64, member: &Member)
        requires
            old(self).wf(),
        ensures
            final(self).wf(),
            final(self).rounds@ == old(self).rounds@,
            final(self).scores@ == ScoreLedger::bumped(
                old(self).scores@,
                chat,
                *member,
                Metric::Tuppers,
            ),
    {
        self.scores.bump(chat, member, Metric::Tuppers);
    }

    /// Starts a new round in `chat` with the two polls `entrants_poll_id`
    /// and `seconds_poll_id`, whose options end with the oversized marker;
    /// `starter` is credited with a poll. An option list that is empty
    /// leaves everything as it was.
    pub fn start_round(
        &mut self,
        chat: i64,
        starter: &Member,
        entrants: Vec<String>,
        seconds: Vec<String>,
        entrants_poll_id: String,
        seconds_poll_id: String,
    ) -> (r: Result<(), LunchError>)
        requires
            old(self).wf(),
        ensures
            final(self).wf(),
            start_step(
                old(self).rounds@,
                old(self).scores@,
                chat,
                *starter,
                entrants,
                seconds,
                entrants_poll_id,
                seconds_poll_id,
                r,
                final(self).rounds@,
                final(self).scores@,
            ),
    {
        if entrants.len() == 0 || seconds.len() == 0 {
            return Err(LunchError::MenuUnavailable);
        }
        self.rounds.start_round(chat, entrants, seconds, entrants_poll_id, seconds_poll_id);
        self.scores.bump(chat, starter, Metric::PollsMade);
        Ok(())
    }

    /// Applies the vote-change event of `member` on poll `poll_id`, whose
    /// complete new selection is `selection`.
    pub fn apply_vote(&mut self, poll_id: &String, member: &Member, selection: Vec<usize>) -> (r:
        VoteOutcome)
        requires
            old(self).wf(),
        ensures
            final(self).wf(),
            vote_step(
                old(self).rounds@,
                old(self).scores@,
                poll_id@,
                *member,
                selection@,
                r,
                final(self).rounds@,
                final(self).scores@,
            ),
    {
        match self.rounds.locate(poll_id) {
            None => VoteOutcome::NoMatchingRound,
            Some((chat, side)) => {
                let (call_made, first_done) = match self.rounds.get_round(chat) {
                    Some(round) => (round.call_made, round.first_vote_recorded),
                    None => {
                        return VoteOutcome::NoMatchingRound;
                    },
                };
                if call_made {
                    self.scores.bump(chat, member, Metric::OutOfTime);
                    return VoteOutcome::TooLate { chat_id: chat };
                }
                let retracted = selection.len() == 0;
                self.scores.credit(chat, member, Metric::Retracts, retracted);
                self.scores.credit(chat, member, Metric::Fastest, !first_done);
                self.rounds.record_vote(chat, member, side, selection);
                VoteOutcome::Recorded { chat_id: chat, side }
            },
        }
    }

    /// Marks the call of `chat`'s round as made by `caller`: the caller is
    /// credited with a call and the round's last voter with the slowest
    /// vote, and that voter is handed back.
    pub fn call_made(&mut self, chat: i64, caller: &Member) -> (r: Result<Member, LunchError>)
        requires
            old(self).wf(),
        ensures
            final(self).wf(),
            call_step(
                old(self).rounds@,
                old(self).scores@,
                chat,
                *caller,
                r,
                final(self).rounds@,
                final(self).scores@,
            ),
    {
        match self.rounds.get_round(chat) {
            None => {
                return Err(LunchError::NoActiveRound);
            },
            Some(round) => {
                if round.call_made {
                    return Err(LunchError::AlreadyCalled);
                }
            },
        }
        match self.rounds.mark_call_made(chat) {
            None => Err(LunchError::NoVotes),
            Some(slow) => {
                self.scores.bump(chat, caller, Metric::CallsMade);
                self.scores.bump(chat, &slow, Metric::Slowest);
                Ok(slow)
            },
        }
    }

    /// The members of `chat`'s round who selected anything, in ballot
    /// order.
    pub fn caller_pool(&self, chat: i64) -> (r: Result<Vec<Member>, LunchError>)
        requires
            self.wf(),
        ensures
            match r {
                Ok(pool) => self.rounds@.contains_key(chat) && pool@ == voters(
                    self.rounds@[chat].ballots@,
                ),
                Err(e) => e == LunchError::NoActiveRound && !self.rounds@.contains_key(chat),
            },
    {
        let round = match self.rounds.get_round(chat) {
            Some(round) => round,
            None => {
                return Err(LunchError::NoActiveRound);
            },
        };
        let mut pool: Vec<Member> = Vec::new();
        let mut k: usize = 0;
        while k < round.ballots.len()
            invariant
                k <= round.ballots@.len(),
                pool@ == voters(round.ballots@.subrange(0, k as int)),
            decreases round.ballots@.len() - k,
        {
            let ghost pre = round.ballots@.subrange(0, k as int);
            if round.ballots[k].has_vote() {
                pool.push(round.ballots[k].member.duplicate());
            }
            k += 1;
            proof {
                assert(round.ballots@.subrange(0, k as int).drop_last() =~= pre);
            }
        }
        proof {
            assert(round.ballots@.subrange(0, round.ballots@.len() as int) =~= round.ballots@);
        }
        Ok(pool)
    }

    /// The caller that the random value `draw` picks among the members of
    /// `chat`'s round who voted.
    pub fn pick_caller(&self, chat: i64, draw: usize) -> (r: Result<Member, LunchError>)
        requires
            self.wf(),
        ensures
            !self.rounds@.contains_key(chat) ==> r == Err::<Member, LunchError>(
                LunchError::NoActiveRound,
            ),
            self.rounds@.contains_key(chat) ==> {
                let pool = voters(self.rounds@[chat].ballots@);
                &&& pool.len() == 0 ==> r == Err::<Member, LunchError>(LunchError::NoVotes)
                &&& pool.len() > 0 ==> r == Ok::<Member, LunchError>(
                    pool[(draw % (pool.len() as usize)) as int],
                )
            },
    {
        match self.caller_pool(chat) {
            Err(e) => Err(e),
            Ok(pool) => {
                if pool.len() == 0 {
                    Err(LunchError::NoVotes)
                } else {
                    Ok(pool[draw % pool.len()].duplicate())
                }
            },
        }
    }

    /// Nominates, uniformly at random, one of the members of `chat`'s round
    /// who voted to place the call. No draw is made when there is nobody to
    /// pick.
    pub fn nominate_caller(&self, chat: i64) -> (r: Result<Member, LunchError>)
        requires
            self.wf(),
        ensures
            !self.rounds@.contains_key(chat) ==> r == Err::<Member, LunchError>(
                LunchError::NoActiveRound,
            ),
            self.rounds@.contains_key(chat) ==> {
                let pool = voters(self.rounds@[chat].ballots@);
                &&& pool.len() == 0 ==> r == Err::<Member, LunchError>(LunchError::NoVotes)
                &&& pool.len() > 0 ==> (r matches Ok(m) && pool.contains(m))
            },
    {
        match self.caller_pool(chat) {
            Err(e) => Err(e),
            Ok(pool) => {
                if pool.len() == 0 {
                    Err(LunchError::NoVotes)
                } else {
                    let draw = random_below(pool.len());
                    Ok(pool[draw].duplicate())
                }
            },
        }
    }

    /// The tally of both polls of `chat`'s round. Each member who asked for
    /// an oversized dish in either poll, and was not yet credited for it in
    /// this round, is credited once.
    pub fn show_order(&mut self, chat: i64) -> (r: Result<OrderSummary, LunchError>)
        requires
            old(self).wf(),
        ensures
            final(self).wf(),
            match r {
                Err(e) => {
                    &&& e == LunchError::NoActiveRound
                    &&& !old(self).rounds@.contains_key(chat)
                    &&& final(self).rounds@ == old(self).rounds@
                    &&& final(self).scores@ == old(self).scores@
                },
                Ok(summary) => show_step(
                    old(self).rounds@,
                    old(self).scores@,
                    chat,
                    summary,
                    final(self).rounds@,
                    final(self).scores@,
                ),
            },
    {
        let (entrants, seconds, oversized, due) = match self.rounds.get_round(chat) {
            None => {
                return Err(LunchError::NoActiveRound);
            },
            Some(round) => (
                tally(round, PollSide::Entrants),
                tally(round, PollSide::Seconds),
                oversized_members(round),
                oversized_due(round),
            ),
        };
        let ids = member_ids(&due);
        self.rounds.note_xl_credited(chat, &ids);
        self.scores.bump_all(chat, &due, Metric::XlDishes);
        Ok(OrderSummary { entrants, seconds, oversized, newly_oversized: due })
    }

    /// The ranking of `chat` for counter `metric`.
    pub fn ranking(&self, chat: i64, metric: Metric) -> (r: Vec<RankEntry>)
        requires
            self.wf(),
        ensures
            crate::score::rank_sorted(r@),
            forall|i: int|
                0 <= i < r@.len() ==> self.scores@.contains_key((chat, #[trigger] r@[i].user_id))
                    && r@[i] == crate::score::rank_of(self.scores@[(chat, r@[i].user_id)], metric),
            forall|k: (i64, u64)|
                #[trigger] self.scores@.contains_key(k) && k.0 == chat ==> exists|i: int|
                    0 <= i < r@.len() && r@[i].user_id == k.1,
    {
        self.scores.ranking(chat, metric)
    }
}

} // verus!
