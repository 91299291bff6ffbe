//! What holds across the coordinator's operations, stated over the step
//! relations that the operations themselves guarantee.

use vstd::prelude::*;
use crate::lunch::{
    call_step,
    show_step,
    start_step,
    vote_step,
    LunchError,
    OrderSummary,
    VoteOutcome,
};
use crate::member::Member;
use crate::round::RoundState;
use crate::score::{
    bump,
    counter,
    lemma_bump_each_once,
    lemma_credited_counter,
    Metric,
    ScoreRecord,
};
use crate::tally::{lemma_xl_due, orders_xl, xl_due};

verus! {

/// "Call made" twice in a row in a chat: the second call fails and changes
/// nothing, and it fails with `AlreadyCalled` when the first succeeded; so
/// the calls-made counter moves at most once.
pub proof fn law_call_made_once(
    r0: Map<i64, RoundState>,
    l0: Map<(i64, u64), ScoreRecord>,
    chat: i64,
    first_caller: Member,
    second_caller: Member,
    o1: Result<Member, LunchError>,
    r1: Map<i64, RoundState>,
    l1: Map<(i64, u64), ScoreRecord>,
    o2: Result<Member, LunchError>,
    r2: Map<i64, RoundState>,
    l2: Map<(i64, u64), ScoreRecord>,
)
    requires
        call_step(r0, l0, chat, first_caller, o1, r1, l1),
        call_step(r1, l1, chat, second_caller, o2, r2, l2),
    ensures
        o2.is_err(),
        r2 == r1,
        l2 == l1,
        o1.is_ok() ==> o2 == Err::<Member, LunchError>(LunchError::AlreadyCalled),
{
}

/// Once the call of a round is made, a vote on one of its polls is dropped:
/// the rounds stay as they were, so the voter's ballot is untouched, and the
/// voter's out-of-time counter moves by one.
pub proof fn law_late_vote_dropped(
    r0: Map<i64, RoundState>,
    l0: Map<(i64, u64), ScoreRecord>,
    chat: i64,
    pid: Seq<char>,
    member: Member,
    sel: Seq<usize>,
    out: VoteOutcome,
    r1: Map<i64, RoundState>,
    l1: Map<(i64, u64), ScoreRecord>,
)
    requires
        r0.contains_key(chat),
        r0[chat].poll_side(pid).is_some(),
        r0[chat].call_made,
        forall|c: i64| #[trigger] r0.contains_key(c) && c != chat ==> r0[c].poll_side(pid).is_none(),
        vote_step(r0, l0, pid, member, sel, out, r1, l1),
    ensures
        out == (VoteOutcome::TooLate { chat_id: chat }),
        r1 == r0,
        counter(l1, chat, member.id, Metric::OutOfTime) == bump(
            counter(l0, chat, member.id, Metric::OutOfTime),
        ),
{
    match out {
        VoteOutcome::NoMatchingRound => {
            assert(r0.contains_key(chat));
        },
        VoteOutcome::TooLate { chat_id } => {
            assert(r0.contains_key(chat_id));
            lemma_credited_counter(
                l0,
                chat,
                member,
                Metric::OutOfTime,
                true,
                chat,
                member.id,
                Metric::OutOfTime,
            );
        },
        VoteOutcome::Recorded { chat_id, side } => {
            assert(r0.contains_key(chat_id));
        },
    }
}

/// A recorded vote with an empty selection moves the voter's retraction
/// counter by exactly one, however many such votes came before.
pub proof fn law_retraction_counted(
    r0: Map<i64, RoundState>,
    l0: Map<(i64, u64), ScoreRecord>,
    pid: Seq<char>,
    member: Member,
    sel: Seq<usize>,
    out: VoteOutcome,
    r1: Map<i64, RoundState>,
    l1: Map<(i64, u64), ScoreRecord>,
)
    requires
        vote_step(r0, l0, pid, member, sel, out, r1, l1),
        sel.len() == 0,
    ensures
        out matches VoteOutcome::Recorded { chat_id, .. } ==> counter(
            l1,
            chat_id,
            member.id,
            Metric::Retracts,
        ) == bump(counter(l0, chat_id, member.id, Metric::Retracts)),
{
    if let VoteOutcome::Recorded { chat_id, side } = out {
        let first_done = r0[chat_id].first_vote_recorded;
        let mid = crate::score::ScoreLedger::credited(l0, chat_id, member, Metric::Retracts, true);
        lemma_credited_counter(
            l0,
            chat_id,
            member,
            Metric::Retracts,
            true,
            chat_id,
            member.id,
            Metric::Retracts,
        );
        lemma_credited_counter(
            mid,
            chat_id,
            member,
            Metric::Fastest,
            !first_done,
            chat_id,
            member.id,
            Metric::Retracts,
        );
    }
}

/// Starting a new round in a chat discards the old round's ballots, and a
/// vote on a poll of the old round, run neither by the new round nor by
/// another chat, is dropped as matching no round.
pub proof fn law_round_replacement(
    r0: Map<i64, RoundState>,
    l0: Map<(i64, u64), ScoreRecord>,
    chat: i64,
    starter: Member,
    entrants: Vec<String>,
    seconds: Vec<String>,
    entrants_poll_id: String,
    seconds_poll_id: String,
    o1: Result<(), LunchError>,
    r1: Map<i64, RoundState>,
    l1: Map<(i64, u64), ScoreRecord>,
    pid: Seq<char>,
    member: Member,
    sel: Seq<usize>,
    o2: VoteOutcome,
    r2: Map<i64, RoundState>,
    l2: Map<(i64, u64), ScoreRecord>,
)
    requires
        start_step(
            r0,
            l0,
            chat,
            starter,
            entrants,
            seconds,
            entrants_poll_id,
            seconds_poll_id,
            o1,
            r1,
            l1,
        ),
        o1.is_ok(),
        pid != entrants_poll_id@,
        pid != seconds_poll_id@,
        forall|c: i64| #[trigger] r0.contains_key(c) && c != chat ==> r0[c].poll_side(pid).is_none(),
        vote_step(r1, l1, pid, member, sel, o2, r2, l2),
    ensures
        r1[chat].ballots@.len() == 0,
        o2 == VoteOutcome::NoMatchingRound,
        r2 == r1,
        l2 == l1,
{
    match o2 {
        VoteOutcome::NoMatchingRound => {},
        VoteOutcome::TooLate { chat_id } => {
            if chat_id != chat {
                assert(r0.contains_key(chat_id));
            }
        },
        VoteOutcome::Recorded { chat_id, side } => {
            if chat_id != chat {
                assert(r0.contains_key(chat_id));
            }
        },
    }
}

/// "Show order" moves the oversized-dish counter of a member who asked for
/// an oversized dish, in either poll or in both, by exactly one, unless the
/// member was already credited for it in this round.
pub proof fn law_oversized_once(
    r0: Map<i64, RoundState>,
    l0: Map<(i64, u64), ScoreRecord>,
    chat: i64,
    summary: OrderSummary,
    r1: Map<i64, RoundState>,
    l1: Map<(i64, u64), ScoreRecord>,
    k: int,
)
    requires
        show_step(r0, l0, chat, summary, r1, l1),
        r0[chat].wf(),
        0 <= k < r0[chat].ballots@.len(),
        orders_xl(r0[chat].ballots@[k], r0[chat]),
        !r0[chat].xl_credited@.contains(r0[chat].ballots@[k].member.id),
    ensures
        counter(l1, chat, r0[chat].ballots@[k].member.id, Metric::XlDishes) == bump(
            counter(l0, chat, r0[chat].ballots@[k].member.id, Metric::XlDishes),
        ),
{
    let round = r0[chat];
    let s = round.ballots@;
    let due = xl_due(s, round);
    lemma_xl_due(s, round);
    assert(due.contains(s[k].member));
    let x = choose|x: int| 0 <= x < due.len() && due[x] == s[k].member;
    lemma_bump_each_once(l0, chat, due, Metric::XlDishes, x);
}

/// Rounds `r` still carry the round `init[chat]` was started with, its call
/// not yet made, and the rounds of the other chats as `init` has them.
pub open spec fn same_round(r: Map<i64, RoundState>, init: Map<i64, RoundState>, chat: i64) -> bool {
    &&& r.contains_key(chat)
    &&& !r[chat].call_made
    &&& r[chat].entrants_poll_id == init[chat].entrants_poll_id
    &&& r[chat].seconds_poll_id == init[chat].seconds_poll_id
    &&& forall|c: i64|
        c != chat ==> (#[trigger] r.contains_key(c) == init.contains_key(c)) && (r.contains_key(c)
            ==> r[c] == init[c])
}

proof fn lemma_first_vote_step(
    init: Map<i64, RoundState>,
    chat: i64,
    r0: Map<i64, RoundState>,
    l0: Map<(i64, u64), ScoreRecord>,
    pid: Seq<char>,
    member: Member,
    sel: Seq<usize>,
    out: VoteOutcome,
    r1: Map<i64, RoundState>,
    l1: Map<(i64, u64), ScoreRecord>,
    id: u64,
)
    requires
        init.contains_key(chat),
        same_round(r0, init, chat),
        init[chat].poll_side(pid).is_some(),
        forall|c: i64| #[trigger] init.contains_key(c) && c != chat ==> init[c].poll_side(pid).is_none(),
        vote_step(r0, l0, pid, member, sel, out, r1, l1),
    ensures
        same_round(r1, init, chat),
        r1[chat].first_vote_recorded,
        counter(l1, chat, id, Metric::Fastest) == if !r0[chat].first_vote_recorded && id
            == member.id {
            bump(counter(l0, chat, id, Metric::Fastest))
        } else {
            counter(l0, chat, id, Metric::Fastest)
        },
{
    assert(r0[chat].poll_side(pid).is_some());
    match out {
        VoteOutcome::NoMatchingRound => {
            assert(r0.contains_key(chat));
        },
        VoteOutcome::TooLate { chat_id } => {
            if chat_id != chat {
                assert(r0.contains_key(chat_id));
                assert(init.contains_key(chat_id));
            }
        },
        VoteOutcome::Recorded { chat_id, side } => {
            if chat_id != chat {
                assert(r0.contains_key(chat_id));
                assert(init.contains_key(chat_id));
            } else {
                let first_done = r0[chat].first_vote_recorded;
                let mid = crate::score::ScoreLedger::credited(
                    l0,
                    chat,
                    member,
                    Metric::Retracts,
                    sel.len() == 0,
                );
                lemma_credited_counter(
                    l0,
                    chat,
                    member,
                    Metric::Retracts,
                    sel.len() == 0,
                    chat,
                    id,
                    Metric::Fastest,
                );
                lemma_credited_counter(
                    mid,
                    chat,
                    member,
                    Metric::Fastest,
                    !first_done,
                    chat,
                    id,
                    Metric::Fastest,
                );
                assert forall|c: i64|
                    c != chat implies (#[trigger] r1.contains_key(c) == init.contains_key(c)) && (
                    r1.contains_key(c) ==> r1[c] == init[c]) by {
                    assert(r0.contains_key(c) == init.contains_key(c));
                }
            }
        },
    }
}

proof fn lemma_first_vote_run(
    rs: Seq<Map<i64, RoundState>>,
    ls: Seq<Map<(i64, u64), ScoreRecord>>,
    pids: Seq<Seq<char>>,
    members: Seq<Member>,
    sels: Seq<Seq<usize>>,
    outs: Seq<VoteOutcome>,
    chat: i64,
    id: u64,
    n: int,
)
    requires
        1 <= n <= pids.len(),
        rs.len() == pids.len() + 1,
        ls.len() == pids.len() + 1,
        members.len() == pids.len(),
        sels.len() == pids.len(),
        outs.len() == pids.len(),
        forall|k: int|
            0 <= k < pids.len() ==> vote_step(
                #[trigger] rs[k],
                ls[k],
                pids[k],
                members[k],
                sels[k],
                outs[k],
                rs[k + 1],
                ls[k + 1],
            ),
        rs[0].contains_key(chat),
        !rs[0][chat].first_vote_recorded,
        !rs[0][chat].call_made,
        forall|k: int| 0 <= k < pids.len() ==> (#[trigger] rs[0][chat].poll_side(pids[k])).is_some(),
        forall|k: int, c: i64|
            0 <= k < pids.len() && #[trigger] rs[0].contains_key(c) && c != chat ==> (
            #[trigger] rs[0][c].poll_side(pids[k])).is_none(),
    ensures
        same_round(rs[n], rs[0], chat),
        rs[n][chat].first_vote_recorded,
        counter(ls[n], chat, id, Metric::Fastest) == if id == members[0].id {
            bump(counter(ls[0], chat, id, Metric::Fastest))
        } else {
            counter(ls[0], chat, id, Metric::Fastest)
        },
    decreases n,
{
    let init = rs[0];
    let k = n - 1;
    assert(init[chat].poll_side(pids[k]).is_some());
    assert forall|c: i64| #[trigger] init.contains_key(c) && c != chat implies init[c].poll_side(
        pids[k],
    ).is_none() by {
        assert(rs[0][c].poll_side(pids[k]).is_none());
    }
    assert(vote_step(rs[k], ls[k], pids[k], members[k], sels[k], outs[k], rs[k + 1], ls[k + 1]));
    if n == 1 {
        lemma_first_vote_step(
            init,
            chat,
            rs[0],
            ls[0],
            pids[0],
            members[0],
            sels[0],
            outs[0],
            rs[1],
            ls[1],
            id,
        );
    } else {
        lemma_first_vote_run(rs, ls, pids, members, sels, outs, chat, id, n - 1);
        lemma_first_vote_step(
            init,
            chat,
            rs[k],
            ls[k],
            pids[k],
            members[k],
            sels[k],
            outs[k],
            rs[n],
            ls[n],
            id,
        );
    }
}

/// On a round that nobody has voted in and whose call is not made, a run of
/// vote-change events on its polls moves the fastest-voter counter once, for
/// the member of the first event, and for nobody else.
pub proof fn law_first_vote_once(
    rs: Seq<Map<i64, RoundState>>,
    ls: Seq<Map<(i64, u64), ScoreRecord>>,
    pids: Seq<Seq<char>>,
    members: Seq<Member>,
    sels: Seq<Seq<usize>>,
    outs: Seq<VoteOutcome>,
    chat: i64,
    id: u64,
)
    requires
        pids.len() >= 1,
        rs.len() == pids.len() + 1,
        ls.len() == pids.len() + 1,
        members.len() == pids.len(),
        sels.len() == pids.len(),
        outs.len() == pids.len(),
        forall|k: int|
            0 <= k < pids.len() ==> vote_step(
                #[trigger] rs[k],
                ls[k],
                pids[k],
                members[k],
                sels[k],
                outs[k],
                rs[k + 1],
                ls[k + 1],
            ),
        rs[0].contains_key(chat),
        !rs[0][chat].first_vote_recorded,
        !rs[0][chat].call_made,
        forall|k: int| 0 <= k < pids.len() ==> (#[trigger] rs[0][chat].poll_side(pids[k])).is_some(),
        forall|k: int, c: i64|
            0 <= k < pids.len() && #[trigger] rs[0].contains_key(c) && c != chat ==> (
            #[trigger] rs[0][c].poll_side(pids[k])).is_none(),
    ensures
        counter(ls.last(), chat, id, Metric::Fastest) == if id == members[0].id {
            bump(counter(ls[0], chat, id, Metric::Fastest))
        } else {
            counter(ls[0], chat, id, Metric::Fastest)
        },
{
    lemma_first_vote_run(rs, ls, pids, members, sels, outs, chat, id, pids.len() as int);
}

} // verus!
