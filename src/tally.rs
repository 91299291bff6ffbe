//! The order aggregator: the dishes a round's ballots ask for, and who asked
//! for an oversized one.

use vstd::prelude::*;
use crate::member::Member;
use crate::keyed::keys_unique;
use crate::round::{ballot_key, Ballot, PollSide, RoundState};

verus! {

/// The number of ballots of `s` that select dish `dish` in poll `side`,
/// with (`xl`) or without the oversized marker `marker` beside it.
pub open spec fn tally_count(
    s: Seq<Ballot>,
    side: PollSide,
    marker: usize,
    dish: usize,
    xl: bool,
) -> nat
    decreases s.len(),
{
    if s.len() == 0 {
        0
    } else {
        let b = s.last();
        tally_count(s.drop_last(), side, marker, dish, xl) + if b.side(side).contains(dish)
            && b.side(side).contains(marker) == xl {
            1nat
        } else {
            0nat
        }
    }
}

/// How a tally line reads: the dish, prefixed by the marker's text when
/// oversized.
pub open spec fn label_of(options: Seq<String>, dish: int, xl: bool) -> Seq<char> {
    if xl {
        options.last()@ + " - "@ + options[dish]@
    } else {
        options[dish]@
    }
}

/// The lines of the tally of poll `side` for the first `d` dishes of
/// `options`: per dish, first the plain line then the oversized one, each
/// only when some ballot asks for it.
pub open spec fn tally_upto(
    s: Seq<Ballot>,
    side: PollSide,
    options: Seq<String>,
    d: nat,
) -> Seq<(usize, bool, Seq<char>, nat)>
    decreases d,
{
    if d == 0 {
        Seq::empty()
    } else {
        let dish = (d - 1) as usize;
        let marker = (options.len() - 1) as usize;
        let plain = tally_count(s, side, marker, dish, false);
        let xl = tally_count(s, side, marker, dish, true);
        tally_upto(s, side, options, (d - 1) as nat) + (if plain > 0 {
            seq![(dish, false, label_of(options, dish as int, false), plain)]
        } else {
            Seq::empty()
        }) + (if xl > 0 {
            seq![(dish, true, label_of(options, dish as int, true), xl)]
        } else {
            Seq::empty()
        })
    }
}

/// The whole tally of poll `side` of `round`.
pub open spec fn tally_spec(round: RoundState, side: PollSide) -> Seq<
    (usize, bool, Seq<char>, nat),
> {
    tally_upto(round.ballots@, side, round.options(side), (round.options(side).len() - 1) as nat)
}

/// One line of a tally: how many members asked for a dish, plain or
/// oversized.
#[derive(Clone, Debug)]
pub struct TallyEntry {
    pub dish: usize,
    pub oversized: bool,
    pub label: String,
    pub count: usize,
}

impl View for TallyEntry {
    type V = (usize, bool, Seq<char>, nat);

    open spec fn view(&self) -> (usize, bool, Seq<char>, nat) {
        (self.dish, self.oversized, self.label@, self.count as nat)
    }
}

pub open spec fn entry_view() -> spec_fn(TallyEntry) -> (usize, bool, Seq<char>, nat) {
    |e: TallyEntry| e@
}

/// The ballot asks for an oversized dish in either poll of `round`.
pub open spec fn orders_xl(b: Ballot, round: RoundState) -> bool {
    b.entrants@.contains((round.entrants@.len() - 1) as usize) || b.seconds@.contains(
        (round.seconds@.len() - 1) as usize,
    )
}

/// The members of the first ballots of `s` who asked for an oversized dish
/// in `round`, in ballot order.
pub open spec fn xl_members(s: Seq<Ballot>, round: RoundState) -> Seq<Member>
    decreases s.len(),
{
    if s.len() == 0 {
        Seq::empty()
    } else if orders_xl(s.last(), round) {
        xl_members(s.drop_last(), round).push(s.last().member)
    } else {
        xl_members(s.drop_last(), round)
    }
}

/// The members of the first ballots of `s` who asked for an oversized dish
/// in `round` and are not yet credited for it there, in ballot order.
pub open spec fn xl_due(s: Seq<Ballot>, round: RoundState) -> Seq<Member>
    decreases s.len(),
{
    if s.len() == 0 {
        Seq::empty()
    } else {
        let b = s.last();
        if orders_xl(b, round) && !round.xl_credited@.contains(b.member.id) {
            xl_due(s.drop_last(), round).push(b.member)
        } else {
            xl_due(s.drop_last(), round)
        }
    }
}

/// Over ballots of distinct members, the members due a credit are distinct,
/// each comes from a ballot, and every ballot that qualifies is among them.
pub proof fn lemma_xl_due(s: Seq<Ballot>, round: RoundState)
    requires
        keys_unique(s, ballot_key()),
    ensures
        forall|a: int, b: int|
            0 <= a < b < xl_due(s, round).len() ==> xl_due(s, round)[a].id != xl_due(
                s,
                round,
            )[b].id,
        forall|x: int| #![trigger xl_due(s, round)[x]]
            0 <= x < xl_due(s, round).len() ==> exists|j: int|
                0 <= j < s.len() && s[j].member.id == xl_due(s, round)[x].id,
        forall|k: int|
            0 <= k < s.len() && orders_xl(s[k], round) && !round.xl_credited@.contains(
                s[k].member.id,
            ) ==> xl_due(s, round).contains(#[trigger] s[k].member),
    decreases s.len(),
{
    if s.len() > 0 {
        let t = s.drop_last();
        assert(keys_unique(t, ballot_key()));
        lemma_xl_due(t, round);
        let d = xl_due(t, round);
        let last = s.last();
        assert forall|x: int| 0 <= x < d.len() implies d[x].id != last.member.id by {
            let j = choose|j: int| 0 <= j < t.len() && t[j].member.id == d[x].id;
            assert(ballot_key()(s[j]) != ballot_key()(s[s.len() - 1]));
        }
        assert forall|x: int| #![trigger xl_due(s, round)[x]]
            0 <= x < xl_due(s, round).len() implies exists|j: int|
            0 <= j < s.len() && s[j].member.id == xl_due(s, round)[x].id by {
            if x < d.len() {
                let j = choose|j: int| 0 <= j < t.len() && t[j].member.id == d[x].id;
                assert(s[j] == t[j]);
            } else {
                assert(s[s.len() - 1].member.id == xl_due(s, round)[x].id);
            }
        }
        assert forall|k: int|
            0 <= k < s.len() && orders_xl(s[k], round) && !round.xl_credited@.contains(
                s[k].member.id,
            ) implies xl_due(s, round).contains(#[trigger] s[k].member) by {
            if k < s.len() - 1 {
                assert(t[k] == s[k]);
                assert(d.contains(t[k].member));
                let x = choose|x: int| 0 <= x < d.len() && d[x] == t[k].member;
                assert(xl_due(s, round)[x] == s[k].member);
            } else {
                assert(xl_due(s, round) == d.push(last.member));
                assert(xl_due(s, round)[d.len() as int] == s[k].member);
            }
        }
    }
}

fn selects(sel: &Vec<usize>, x: usize) -> (r: bool)
    ensures
        r == sel@.contains(x),
{
    let mut k: usize = 0;
    while k < sel.len()
        invariant
            k <= sel@.len(),
            forall|q: int| 0 <= q < k ==> sel@[q] != x,
        decreases sel@.len() - k,
    {
        if sel[k] == x {
            return true;
        }
        k += 1;
    }
    false
}

fn credited(ids: &Vec<u64>, x: u64) -> (r: bool)
    ensures
        r == ids@.contains(x),
{
    let mut k: usize = 0;
    while k < ids.len()
        invariant
            k <= ids@.len(),
            forall|q: int| 0 <= q < k ==> ids@[q] != x,
        decreases ids@.len() - k,
    {
        if ids[k] == x {
            return true;
        }
        k += 1;
    }
    false
}

fn side_of_ballot(b: &Ballot, side: PollSide) -> (r: &Vec<usize>)
    ensures
        r@ == b.side(side),
{
    match side {
        PollSide::Entrants => &b.entrants,
        PollSide::Seconds => &b.seconds,
    }
}

/// How many ballots select `dish` in poll `side`: without the marker, and
/// with it.
fn count_dish(ballots: &Vec<Ballot>, side: PollSide, marker: usize, dish: usize) -> (r: (
    usize,
    usize,
))
    ensures
        r.0 == tally_count(ballots@, side, marker, dish, false),
        r.1 == tally_count(ballots@, side, marker, dish, true),
{
    let mut plain: usize = 0;
    let mut xl: usize = 0;
    let mut k: usize = 0;
    while k < ballots.len()
        invariant
            k <= ballots@.len(),
            plain == tally_count(ballots@.subrange(0, k as int), side, marker, dish, false),
            xl == tally_count(ballots@.subrange(0, k as int), side, marker, dish, true),
            plain + xl <= k,
        decreases ballots@.len() - k,
    {
        let sel = side_of_ballot(&ballots[k], side);
        let ghost pre = ballots@.subrange(0, k as int);
        if selects(sel, dish) {
            if selects(sel, marker) {
                xl = xl + 1;
            } else {
                plain = plain + 1;
            }
        }
        k += 1;
        proof {
            assert(ballots@.subrange(0, k as int).drop_last() =~= pre);
        }
    }
    proof {
        assert(ballots@.subrange(0, ballots@.len() as int) =~= ballots@);
    }
    (plain, xl)
}

/// The tally of poll `side` of `round`.
pub fn tally(round: &RoundState, side: PollSide) -> (r: Vec<TallyEntry>)
    requires
        round.wf(),
    ensures
        r@.map_values(entry_view()) == tally_spec(*round, side),
{
    let options = match side {
        PollSide::Entrants => &round.entrants,
        PollSide::Seconds => &round.seconds,
    };
    let marker = options.len() - 1;
    let mut out: Vec<TallyEntry> = Vec::new();
    let mut d: usize = 0;
    while d < marker
        invariant
            options@ == round.options(side),
            marker == options@.len() - 1,
            d <= marker,
            out@.map_values(entry_view()) == tally_upto(round.ballots@, side, options@, d as nat),
        decreases marker - d,
    {
        let (plain, xl) = count_dish(&round.ballots, side, marker, d);
        let ghost before = out@.map_values(entry_view());
        let ghost mid = before;
        if plain > 0 {
            let label = options[d].clone();
            out.push(TallyEntry { dish: d, oversized: false, label, count: plain });
            proof {
                mid = before + seq![(d, false, label_of(options@, d as int, false), plain as nat)];
                assert(out@.map_values(entry_view()) =~= mid);
            }
        }
        let ghost mid2 = out@.map_values(entry_view());
        if xl > 0 {
            let label = options[marker].clone().concat(" - ").concat(options[d].as_str());
            out.push(TallyEntry { dish: d, oversized: true, label, count: xl });
            proof {
                assert(out@.map_values(entry_view()) =~= mid2 + seq![
                    (d, true, label_of(options@, d as int, true), xl as nat),
                ]);
            }
        }
        d += 1;
        proof {
            assert(out@.map_values(entry_view()) =~= tally_upto(
                round.ballots@,
                side,
                options@,
                d as nat,
            ));
        }
    }
    out
}

/// The members of `round` who asked for an oversized dish in either poll,
/// one per ballot, in ballot order.
pub fn oversized_members(round: &RoundState) -> (r: Vec<Member>)
    requires
        round.wf(),
    ensures
        r@ == xl_members(round.ballots@, *round),
{
    let em = round.entrants.len() - 1;
    let sm = round.seconds.len() - 1;
    let mut out: Vec<Member> = Vec::new();
    let mut k: usize = 0;
    while k < round.ballots.len()
        invariant
            round.wf(),
            em == round.entrants@.len() - 1,
            sm == round.seconds@.len() - 1,
            k <= round.ballots@.len(),
            out@ == xl_members(round.ballots@.subrange(0, k as int), *round),
        decreases round.ballots@.len() - k,
    {
        let b = &round.ballots[k];
        let ghost pre = round.ballots@.subrange(0, k as int);
        if selects(&b.entrants, em) || selects(&b.seconds, sm) {
            out.push(b.member.duplicate());
        }
        k += 1;
        proof {
            assert(round.ballots@.subrange(0, k as int).drop_last() =~= pre);
        }
    }
    proof {
        assert(round.ballots@.subrange(0, round.ballots@.len() as int) =~= round.ballots@);
    }
    out
}

/// The members of `round` who asked for an oversized dish in either poll and
/// were not yet credited for it, one per ballot, in ballot order.
pub fn oversized_due(round: &RoundState) -> (r: Vec<Member>)
    requires
        round.wf(),
    ensures
        r@ == xl_due(round.ballots@, *round),
{
    let em = round.entrants.len() - 1;
    let sm = round.seconds.len() - 1;
    let mut out: Vec<Member> = Vec::new();
    let mut k: usize = 0;
    while k < round.ballots.len()
        invariant
            round.wf(),
            em == round.entrants@.len() - 1,
            sm == round.seconds@.len() - 1,
            k <= round.ballots@.len(),
            out@ == xl_due(round.ballots@.subrange(0, k as int), *round),
        decreases round.ballots@.len() - k,
    {
        let b = &round.ballots[k];
        let ghost pre = round.ballots@.subrange(0, k as int);
        if (selects(&b.entrants, em) || selects(&b.seconds, sm)) && !credited(
            &round.xl_credited,
            b.member.id,
        ) {
            out.push(b.member.duplicate());
        }
        k += 1;
        proof {
            assert(round.ballots@.subrange(0, k as int).drop_last() =~= pre);
        }
    }
    proof {
        assert(round.ballots@.subrange(0, round.ballots@.len() as int) =~= round.ballots@);
    }
    out
}

} // verus!
