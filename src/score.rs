//! The score ledger: per chat and member, a display name and eight counters
//! that only ever grow.

use vstd::prelude::*;
use crate::keyed::{
    keyed,
    keys_unique,
    lemma_keyed_absent,
    lemma_keyed_lookup,
    lemma_keyed_push,
    lemma_keyed_update,
    lemma_keys_unique_push,
};
use crate::member::Member;

verus! {

/// The counters of a score record; each one names a ranking.
#[derive(Clone, Copy, Debug, PartialEq, Eq, Structural)]
pub enum Metric {
    PollsMade,
    CallsMade,
    XlDishes,
    Fastest,
    Slowest,
    Retracts,
    OutOfTime,
    Tuppers,
}

/// What one member has done in one chat.
#[derive(Clone, Debug)]
pub struct ScoreRecord {
    pub chat_id: i64,
    pub user_id: u64,
    pub name: String,
    pub polls_made: u64,
    pub calls_made: u64,
    pub xl_dishes: u64,
    pub fastest_answering: u64,
    pub slowest_answering: u64,
    pub retracted_votes: u64,
    pub out_of_time: u64,
    pub tupper_count: u64,
}

/// One more, unless the counter is already at its largest value.
pub open spec fn bump(x: u64) -> u64 {
    if x < u64::MAX {
        (x + 1) as u64
    } else {
        x
    }
}

fn saturating_inc(x: u64) -> (r: u64)
    ensures
        r == bump(x),
{
    if x < u64::MAX {
        x + 1
    } else {
        x
    }
}

impl ScoreRecord {
    pub open spec fn key(self) -> (i64, u64) {
        (self.chat_id, self.user_id)
    }

    pub open spec fn spec_count(&self, m: Metric) -> u64 {
        match m {
            Metric::PollsMade => self.polls_made,
            Metric::CallsMade => self.calls_made,
            Metric::XlDishes => self.xl_dishes,
            Metric::Fastest => self.fastest_answering,
            Metric::Slowest => self.slowest_answering,
            Metric::Retracts => self.retracted_votes,
            Metric::OutOfTime => self.out_of_time,
            Metric::Tuppers => self.tupper_count,
        }
    }

    /// The value of counter `m`.
    #[verifier::when_used_as_spec(spec_count)]
    pub fn count(&self, m: Metric) -> (r: u64)
        ensures
            r == self.spec_count(m),
    {
        match m {
            Metric::PollsMade => self.polls_made,
            Metric::CallsMade => self.calls_made,
            Metric::XlDishes => self.xl_dishes,
            Metric::Fastest => self.fastest_answering,
            Metric::Slowest => self.slowest_answering,
            Metric::Retracts => self.retracted_votes,
            Metric::OutOfTime => self.out_of_time,
            Metric::Tuppers => self.tupper_count,
        }
    }

    /// A record with every counter at zero.
    pub open spec fn spec_fresh(chat_id: i64, user_id: u64, name: String) -> ScoreRecord {
        ScoreRecord {
            chat_id,
            user_id,
            name,
            polls_made: 0,
            calls_made: 0,
            xl_dishes: 0,
            fastest_answering: 0,
            slowest_answering: 0,
            retracted_votes: 0,
            out_of_time: 0,
            tupper_count: 0,
        }
    }

    pub fn fresh(chat_id: i64, user_id: u64, name: String) -> (r: ScoreRecord)
        ensures
            r == Self::spec_fresh(chat_id, user_id, name),
    {
        ScoreRecord {
            chat_id,
            user_id,
            name,
            polls_made: 0,
            calls_made: 0,
            xl_dishes: 0,
            fastest_answering: 0,
            slowest_answering: 0,
            retracted_votes: 0,
            out_of_time: 0,
            tupper_count: 0,
        }
    }

    pub open spec fn renamed(self, name: String) -> ScoreRecord {
        ScoreRecord { name, ..self }
    }

    /// The record with counter `m` one higher (saturating), the rest unchanged.
    pub open spec fn bumped(self, m: Metric) -> ScoreRecord {
        match m {
            Metric::PollsMade => ScoreRecord { polls_made: bump(self.polls_made), ..self },
            Metric::CallsMade => ScoreRecord { calls_made: bump(self.calls_made), ..self },
            Metric::XlDishes => ScoreRecord { xl_dishes: bump(self.xl_dishes), ..self },
            Metric::Fastest => ScoreRecord {
                fastest_answering: bump(self.fastest_answering),
                ..self
            },
            Metric::Slowest => ScoreRecord {
                slowest_answering: bump(self.slowest_answering),
                ..self
            },
            Metric::Retracts => ScoreRecord { retracted_votes: bump(self.retracted_votes), ..self },
            Metric::OutOfTime => ScoreRecord { out_of_time: bump(self.out_of_time), ..self },
            Metric::Tuppers => ScoreRecord { tupper_count: bump(self.tupper_count), ..self },
        }
    }

    fn bump_counter(&mut self, m: Metric)
        ensures
            *final(self) == old(self).bumped(m),
    {
        match m {
            Metric::PollsMade => self.polls_made = saturating_inc(self.polls_made),
            Metric::CallsMade => self.calls_made = saturating_inc(self.calls_made),
            Metric::XlDishes => self.xl_dishes = saturating_inc(self.xl_dishes),
            Metric::Fastest => self.fastest_answering = saturating_inc(self.fastest_answering),
            Metric::Slowest => self.slowest_answering = saturating_inc(self.slowest_answering),
            Metric::Retracts => self.retracted_votes = saturating_inc(self.retracted_votes),
            Metric::OutOfTime => self.out_of_time = saturating_inc(self.out_of_time),
            Metric::Tuppers => self.tupper_count = saturating_inc(self.tupper_count),
        }
    }
}

pub open spec fn score_key() -> spec_fn(ScoreRecord) -> (i64, u64) {
    |r: ScoreRecord| r.key()
}

/// Counter `metric` of member `id` in `chat`; zero before the member's
/// first interaction there.
pub open spec fn counter(
    m: Map<(i64, u64), ScoreRecord>,
    chat: i64,
    id: u64,
    metric: Metric,
) -> u64 {
    if m.contains_key((chat, id)) {
        m[(chat, id)].spec_count(metric)
    } else {
        0
    }
}

/// An interaction of `member` moves counter `metric` of that member alone,
/// by one, and only when `yes` holds; no other counter of anyone moves.
pub proof fn lemma_credited_counter(
    m: Map<(i64, u64), ScoreRecord>,
    chat: i64,
    member: Member,
    metric: Metric,
    yes: bool,
    c: i64,
    id: u64,
    other: Metric,
)
    ensures
        counter(ScoreLedger::credited(m, chat, member, metric, yes), c, id, other) == if c == chat
            && id == member.id && yes && other == metric {
            bump(counter(m, c, id, other))
        } else {
            counter(m, c, id, other)
        },
{
}

/// The ledger after counter `metric` moved once for each of `ms` in `chat`.
pub open spec fn bump_each(
    m: Map<(i64, u64), ScoreRecord>,
    chat: i64,
    ms: Seq<Member>,
    metric: Metric,
) -> Map<(i64, u64), ScoreRecord>
    decreases ms.len(),
{
    if ms.len() == 0 {
        m
    } else {
        ScoreLedger::bumped(bump_each(m, chat, ms.drop_last(), metric), chat, ms.last(), metric)
    }
}

/// Moving a counter for members other than `id` leaves every counter of
/// `id` as it was.
pub proof fn lemma_bump_each_absent(
    m: Map<(i64, u64), ScoreRecord>,
    chat: i64,
    ms: Seq<Member>,
    metric: Metric,
    id: u64,
    other: Metric,
)
    requires
        forall|a: int| 0 <= a < ms.len() ==> ms[a].id != id,
    ensures
        counter(bump_each(m, chat, ms, metric), chat, id, other) == counter(m, chat, id, other),
    decreases ms.len(),
{
    if ms.len() > 0 {
        lemma_bump_each_absent(m, chat, ms.drop_last(), metric, id, other);
        lemma_credited_counter(
            bump_each(m, chat, ms.drop_last(), metric),
            chat,
            ms.last(),
            metric,
            true,
            chat,
            id,
            other,
        );
    }
}

/// Among members with distinct ids, each has counter `metric` moved by
/// exactly one.
pub proof fn lemma_bump_each_once(
    m: Map<(i64, u64), ScoreRecord>,
    chat: i64,
    ms: Seq<Member>,
    metric: Metric,
    i: int,
)
    requires
        0 <= i < ms.len(),
        forall|a: int, b: int| 0 <= a < b < ms.len() ==> ms[a].id != ms[b].id,
    ensures
        counter(bump_each(m, chat, ms, metric), chat, ms[i].id, metric) == bump(
            counter(m, chat, ms[i].id, metric),
        ),
    decreases ms.len(),
{
    let t = ms.drop_last();
    let id = ms[i].id;
    if i == ms.len() - 1 {
        assert forall|a: int| 0 <= a < t.len() implies t[a].id != id by {
            assert(ms[a].id != ms[i].id);
        }
        lemma_bump_each_absent(m, chat, t, metric, id, metric);
    } else {
        assert(t[i] == ms[i]);
        lemma_bump_each_once(m, chat, t, metric, i);
        assert(ms.last().id != id) by {
            assert(ms[i].id != ms[ms.len() - 1].id);
        }
    }
    lemma_credited_counter(
        bump_each(m, chat, t, metric),
        chat,
        ms.last(),
        metric,
        true,
        chat,
        id,
        metric,
    );
}

/// Every score record, keyed by chat and member.
pub struct ScoreLedger {
    records: Vec<ScoreRecord>,
}

impl View for ScoreLedger {
    type V = Map<(i64, u64), ScoreRecord>;

    closed spec fn view(&self) -> Map<(i64, u64), ScoreRecord> {
        keyed(self.records@, score_key())
    }
}

/// A line of a ranking.
#[derive(Clone, Debug)]
pub struct RankEntry {
    pub user_id: u64,
    pub name: String,
    pub count: u64,
}

/// Ranking order: by the counter, then by member id.
pub open spec fn rank_lt(a: RankEntry, b: RankEntry) -> bool {
    a.count < b.count || (a.count == b.count && a.user_id < b.user_id)
}

pub open spec fn rank_sorted(s: Seq<RankEntry>) -> bool {
    forall|i: int, j: int| 0 <= i < j < s.len() ==> rank_lt(s[i], s[j])
}

pub open spec fn rank_of(r: ScoreRecord, m: Metric) -> RankEntry {
    RankEntry { user_id: r.user_id, name: r.name, count: r.spec_count(m) }
}

fn rank_less(a: &RankEntry, b: &RankEntry) -> (r: bool)
    ensures
        r == rank_lt(*a, *b),
{
    a.count < b.count || (a.count == b.count && a.user_id < b.user_id)
}

proof fn lemma_insert_sorted(s: Seq<RankEntry>, p: int, e: RankEntry)
    requires
        rank_sorted(s),
        0 <= p <= s.len(),
        forall|q: int| 0 <= q < p ==> rank_lt(s[q], e),
        p < s.len() ==> !rank_lt(s[p], e),
        forall|i: int| 0 <= i < s.len() ==> s[i].user_id != e.user_id,
    ensures
        rank_sorted(s.insert(p, e)),
{
    let o = s.insert(p, e);
    assert forall|a: int, b: int| 0 <= a < b < o.len() implies rank_lt(o[a], o[b]) by {
        if b < p {
            assert(o[a] == s[a] && o[b] == s[b]);
        } else if b == p {
            assert(o[a] == s[a]);
        } else if a == p {
            assert(o[b] == s[b - 1]);
            assert(s[p].user_id != e.user_id);
            assert(rank_lt(e, s[p]));
            if b - 1 > p {
                assert(rank_lt(s[p], s[b - 1]));
            }
        } else if a < p {
            assert(o[a] == s[a] && o[b] == s[b - 1]);
        } else {
            assert(o[a] == s[a - 1] && o[b] == s[b - 1]);
        }
    }
}

/// `x` is the ranking line of one of the first `n` records of `s` in `chat`.
pub open spec fn ranked_from(
    s: Seq<ScoreRecord>,
    chat: i64,
    metric: Metric,
    n: int,
    x: RankEntry,
) -> bool {
    exists|t: int| 0 <= t < n && s[t].chat_id == chat && x == rank_of(s[t], metric)
}

/// Where `e` goes in the sorted `out`: after every entry that ranks below it.
fn rank_position(out: &Vec<RankEntry>, e: &RankEntry) -> (p: usize)
    ensures
        p <= out@.len(),
        forall|q: int| 0 <= q < p ==> rank_lt(out@[q], *e),
        p < out@.len() ==> !rank_lt(out@[p as int], *e),
{
    let mut p: usize = 0;
    while p < out.len() && rank_less(&out[p], e)
        invariant
            p <= out@.len(),
            forall|q: int| 0 <= q < p ==> rank_lt(out@[q], *e),
        decreases out@.len() - p,
    {
        p += 1;
    }
    p
}

/// Entries taken from earlier records of the chat never carry the member of
/// record `j`.
proof fn lemma_rank_fresh_id(
    s: Seq<ScoreRecord>,
    chat: i64,
    metric: Metric,
    j: int,
    out: Seq<RankEntry>,
)
    requires
        keys_unique(s, score_key()),
        0 <= j < s.len(),
        s[j].chat_id == chat,
        forall|i: int|
            0 <= i < out.len() ==> ranked_from(s, chat, metric, j, #[trigger] out[i]),
    ensures
        forall|i: int| 0 <= i < out.len() ==> out[i].user_id != s[j].user_id,
{
    assert forall|i: int| 0 <= i < out.len() implies out[i].user_id != s[j].user_id by {
        let t = choose|t: int|
            0 <= t < j && s[t].chat_id == chat && out[i] == rank_of(s[t], metric);
        assert(score_key()(s[t]) != score_key()(s[j]));
    }
}

/// The ranking loop's bookkeeping after record `j` of `s` went in at `p`.
proof fn lemma_rank_step(
    s: Seq<ScoreRecord>,
    chat: i64,
    metric: Metric,
    j: int,
    out: Seq<RankEntry>,
    p: int,
)
    requires
        0 <= j < s.len(),
        s[j].chat_id == chat,
        0 <= p <= out.len(),
        forall|i: int|
            0 <= i < out.len() ==> ranked_from(s, chat, metric, j, #[trigger] out[i]),
        forall|t: int|
            0 <= t < j && #[trigger] s[t].chat_id == chat ==> exists|i: int|
                0 <= i < out.len() && out[i].user_id == s[t].user_id,
    ensures
        ({
            let o = out.insert(p, rank_of(s[j], metric));
            &&& forall|i: int|
                0 <= i < o.len() ==> ranked_from(s, chat, metric, j + 1, #[trigger] o[i])
            &&& forall|t: int|
                0 <= t < j + 1 && #[trigger] s[t].chat_id == chat ==> exists|i: int|
                    0 <= i < o.len() && o[i].user_id == s[t].user_id
        }),
{
    let o = out.insert(p, rank_of(s[j], metric));
    assert forall|i: int| 0 <= i < o.len() implies ranked_from(
        s,
        chat,
        metric,
        j + 1,
        #[trigger] o[i],
    ) by {
        if i == p {
            assert(o[i] == rank_of(s[j], metric));
        } else if i < p {
            assert(o[i] == out[i]);
        } else {
            assert(o[i] == out[i - 1]);
        }
    }
    assert forall|t: int| 0 <= t < j + 1 && #[trigger] s[t].chat_id == chat implies exists|i: int|
        0 <= i < o.len() && o[i].user_id == s[t].user_id by {
        if t == j {
            assert(o[p].user_id == s[t].user_id);
        } else {
            let i = choose|i: int| 0 <= i < out.len() && out[i].user_id == s[t].user_id;
            if i < p {
                assert(o[i] == out[i]);
            } else {
                assert(o[i + 1] == out[i]);
            }
        }
    }
}

impl ScoreLedger {
    pub closed spec fn wf(&self) -> bool {
        keys_unique(self.records@, score_key())
    }

    /// The record of `member` in `chat` as an interaction finds it: the
    /// stored one (or a fresh one) under the member's current name.
    pub open spec fn entry(
        m: Map<(i64, u64), ScoreRecord>,
        chat: i64,
        member: Member,
    ) -> ScoreRecord {
        if m.contains_key((chat, member.id)) {
            m[(chat, member.id)].renamed(member.name)
        } else {
            ScoreRecord::spec_fresh(chat, member.id, member.name)
        }
    }

    /// The ledger after an interaction of `member` in `chat`, which moves
    /// counter `metric` when `yes` holds and no counter otherwise.
    pub open spec fn credited(
        m: Map<(i64, u64), ScoreRecord>,
        chat: i64,
        member: Member,
        metric: Metric,
        yes: bool,
    ) -> Map<(i64, u64), ScoreRecord> {
        if yes {
            m.insert((chat, member.id), Self::entry(m, chat, member).bumped(metric))
        } else {
            m.insert((chat, member.id), Self::entry(m, chat, member))
        }
    }

    pub open spec fn touched(
        m: Map<(i64, u64), ScoreRecord>,
        chat: i64,
        member: Member,
    ) -> Map<(i64, u64), ScoreRecord> {
        Self::credited(m, chat, member, Metric::PollsMade, false)
    }

    pub open spec fn bumped(
        m: Map<(i64, u64), ScoreRecord>,
        chat: i64,
        member: Member,
        metric: Metric,
    ) -> Map<(i64, u64), ScoreRecord> {
        Self::credited(m, chat, member, metric, true)
    }

    pub fn new() -> (r: ScoreLedger)
        ensures
            r.wf(),
            r@ == Map::<(i64, u64), ScoreRecord>::empty(),
    {
        ScoreLedger { records: Vec::new() }
    }

    fn find(&self, chat: i64, user: u64) -> (r: Option<usize>)
        ensures
            match r {
                Some(i) => i < self.records@.len() && self.records@[i as int].key() == (chat, user),
                None => forall|i: int|
                    0 <= i < self.records@.len() ==> self.records@[i].key() != (chat, user),
            },
    {
        let mut i: usize = 0;
        while i < self.records.len()
            invariant
                i <= self.records@.len(),
                forall|j: int| 0 <= j < i ==> self.records@[j].key() != (chat, user),
            decreases self.records@.len() - i,
        {
            if self.records[i].chat_id == chat && self.records[i].user_id == user {
                return Some(i);
            }
            i += 1;
        }
        None
    }

    /// The record of member `user` in `chat`, if one was ever made.
    pub fn get(&self, chat: i64, user: u64) -> (r: Option<&ScoreRecord>)
        requires
            self.wf(),
        ensures
            match r {
                Some(x) => self@.contains_key((chat, user)) && *x == self@[(chat, user)],
                None => !self@.contains_key((chat, user)),
            },
    {
        proof {
            lemma_keyed_lookup(self.records@, score_key());
        }
        match self.find(chat, user) {
            Some(i) => {
                proof {
                    assert(keyed(self.records@, score_key()).contains_key(
                        score_key()(self.records@[i as int]),
                    ));
                }
                Some(&self.records[i])
            },
            None => {
                proof {
                    lemma_keyed_absent(self.records@, score_key(), (chat, user));
                }
                None
            },
        }
    }

    /// Records an interaction of `member` in `chat`, creating the record on
    /// first sight and refreshing its name; counter `metric` moves by one
    /// exactly when `yes` holds.
    pub fn credit(&mut self, chat: i64, member: &Member, metric: Metric, yes: bool)
        requires
            old(self).wf(),
        ensures
            final(self).wf(),
            final(self)@ == Self::credited(old(self)@, chat, *member, metric, yes),
    {
        let ghost s0 = self.records@;
        proof {
            lemma_keyed_lookup(s0, score_key());
        }
        match self.find(chat, member.id) {
            Some(i) => {
                let ghost r0 = s0[i as int];
                proof {
                    assert(keyed(s0, score_key()).contains_key(score_key()(r0)));
                }
                self.records[i].name = member.name.clone();
                if yes {
                    self.records[i].bump_counter(metric);
                }
                proof {
                    let r1 = if yes {
                        r0.renamed(member.name).bumped(metric)
                    } else {
                        r0.renamed(member.name)
                    };
                    assert(self.records@ =~= s0.update(i as int, r1));
                    lemma_keyed_update(s0, score_key(), i as int, r1);
                    assert(keyed(s0, score_key())[(chat, member.id)] == r0);
                }
            },
            None => {
                let mut rec = ScoreRecord::fresh(chat, member.id, member.name.clone());
                if yes {
                    rec.bump_counter(metric);
                }
                proof {
                    lemma_keyed_absent(s0, score_key(), (chat, member.id));
                    lemma_keys_unique_push(s0, score_key(), rec);
                    lemma_keyed_push(s0, score_key(), rec);
                }
                self.records.push(rec);
            },
        }
    }

    /// Records an interaction of `member` in `chat` that moves no counter.
    pub fn touch(&mut self, chat: i64, member: &Member)
        requires
            old(self).wf(),
        ensures
            final(self).wf(),
            final(self)@ == Self::touched(old(self)@, chat, *member),
    {
        self.credit(chat, member, Metric::PollsMade, false);
    }

    /// Moves counter `metric` of `member` in `chat` by one.
    pub fn bump(&mut self, chat: i64, member: &Member, metric: Metric)
        requires
            old(self).wf(),
        ensures
            final(self).wf(),
            final(self)@ == Self::bumped(old(self)@, chat, *member, metric),
    {
        self.credit(chat, member, metric, true);
    }

    /// The records as a list with unique keys, for saving.
    pub fn records(&self) -> (r: &Vec<ScoreRecord>)
        requires
            self.wf(),
        ensures
            keys_unique(r@, score_key()),
            keyed(r@, score_key()) == self@,
    {
        &self.records
    }

    /// A ledger holding `records`, or `None` when two of them share a chat
    /// and a member.
    pub fn from_records(records: Vec<ScoreRecord>) -> (r: Option<ScoreLedger>)
        ensures
            r.is_some() == keys_unique(records@, score_key()),
            r matches Some(l) ==> l.wf() && l@ == keyed(records@, score_key()),
    {
        let n = records.len();
        let mut i: usize = 0;
        while i < n
            invariant
                n == records@.len(),
                i <= n,
                forall|a: int, b: int|
                    0 <= a < b < n && a < i ==> records@[a].key() != records@[b].key(),
            decreases n - i,
        {
            let mut j: usize = i + 1;
            while j < n
                invariant
                    n == records@.len(),
                    i < n,
                    i + 1 <= j <= n,
                    forall|a: int, b: int|
                        0 <= a < b < n && a < i ==> records@[a].key() != records@[b].key(),
                    forall|b: int| i < b < j ==> records@[i as int].key() != records@[b].key(),
                decreases n - j,
            {
                if records[i].chat_id == records[j].chat_id && records[i].user_id
                    == records[j].user_id {
                    proof {
                        assert(score_key()(records@[i as int]) == score_key()(records@[j as int]));
                    }
                    return None;
                }
                j += 1;
            }
            i += 1;
        }
        Some(ScoreLedger { records })
    }

    /// The members of `chat` in ranking order for counter `metric`: rising
    /// by the counter, ties by member id, each with its name and count.
    pub fn ranking(&self, chat: i64, metric: Metric) -> (r: Vec<RankEntry>)
        requires
            self.wf(),
        ensures
            rank_sorted(r@),
            forall|i: int|
                0 <= i < r@.len() ==> self@.contains_key((chat, #[trigger] r@[i].user_id))
                    && r@[i] == rank_of(self@[(chat, r@[i].user_id)], metric),
            forall|k: (i64, u64)|
                #[trigger] self@.contains_key(k) && k.0 == chat ==> exists|i: int|
                    0 <= i < r@.len() && r@[i].user_id == k.1,
    {
        let ghost s = self.records@;
        proof {
            lemma_keyed_lookup(s, score_key());
        }
        let mut out: Vec<RankEntry> = Vec::new();
        let mut j: usize = 0;
        while j < self.records.len()
            invariant
                s == self.records@,
                self.wf(),
                j <= s.len(),
                rank_sorted(out@),
                forall|i: int|
                    0 <= i < out@.len() ==> ranked_from(
                        s,
                        chat,
                        metric,
                        j as int,
                        #[trigger] out@[i],
                    ),
                forall|t: int|
                    0 <= t < j && #[trigger] s[t].chat_id == chat ==> exists|i: int|
                        0 <= i < out@.len() && out@[i].user_id == s[t].user_id,
            decreases s.len() - j,
        {
            if self.records[j].chat_id == chat {
                let rec = &self.records[j];
                let e = RankEntry {
                    user_id: rec.user_id,
                    name: rec.name.clone(),
                    count: rec.count(metric),
                };
                assert(e == rank_of(s[j as int], metric));
                let p = rank_position(&out, &e);
                proof {
                    lemma_rank_fresh_id(s, chat, metric, j as int, out@);
                }
                let ghost old_out = out@;
                out.insert(p, e);
                proof {
                    lemma_insert_sorted(old_out, p as int, e);
                    lemma_rank_step(s, chat, metric, j as int, old_out, p as int);
                }
            }
            j += 1;
        }
        proof {
            assert forall|i: int|
                0 <= i < out@.len() implies self@.contains_key((chat, #[trigger] out@[i].user_id))
                && out@[i] == rank_of(self@[(chat, out@[i].user_id)], metric) by {
                let t = choose|t: int|
                    0 <= t < s.len() && s[t].chat_id == chat && out@[i] == rank_of(
                        s[t],
                        metric,
                    );
                assert(keyed(s, score_key()).contains_key(score_key()(s[t])));
            }
            assert forall|k: (i64, u64)|
                #[trigger] self@.contains_key(k) && k.0 == chat implies exists|i: int|
                0 <= i < out@.len() && out@[i].user_id == k.1 by {
                let t = choose|t: int| 0 <= t < s.len() && score_key()(s[t]) == k;
                assert(s[t].chat_id == chat);
            }
        }
        out
    }

    /// Moves counter `metric` by one for each member of `members`, in order.
    pub fn bump_all(&mut self, chat: i64, members: &Vec<Member>, metric: Metric)
        requires
            old(self).wf(),
        ensures
            final(self).wf(),
            final(self)@ == bump_each(old(self)@, chat, members@, metric),
    {
        let mut k: usize = 0;
        while k < members.len()
            invariant
                self.wf(),
                k <= members@.len(),
                self@ == bump_each(old(self)@, chat, members@.subrange(0, k as int), metric),
            decreases members@.len() - k,
        {
            self.bump(chat, &members[k], metric);
            k += 1;
            proof {
                assert(members@.subrange(0, k as int).drop_last() =~= members@.subrange(
                    0,
                    k - 1,
                ));
            }
        }
        proof {
            assert(members@.subrange(0, members@.len() as int) =~= members@);
        }
    }
}

} // verus!
