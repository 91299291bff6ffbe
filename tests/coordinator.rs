use lunch_poll::lunch::{LunchError, LunchState, VoteOutcome};
use lunch_poll::member::Member;
use lunch_poll::round::PollSide;
use lunch_poll::score::Metric;

const CHAT: i64 = -100;

fn member(id: u64, name: &str) -> Member {
    Member::new(id, name.to_string())
}

fn strings(items: &[&str]) -> Vec<String> {
    items.iter().map(|s| s.to_string()).collect()
}

fn started() -> LunchState {
    let mut state = LunchState::new();
    let r = state.start_round(
        CHAT,
        &member(9, "starter"),
        strings(&["soup", "salad", "XL"]),
        strings(&["fish", "meat", "XL"]),
        "pe".to_string(),
        "ps".to_string(),
    );
    assert_eq!(r, Ok(()));
    state
}

fn count(state: &LunchState, id: u64, metric: Metric) -> u64 {
    match state.scores.get(CHAT, id) {
        Some(rec) => rec.count(metric),
        None => 0,
    }
}

fn tally_pairs(entries: &[lunch_poll::tally::TallyEntry]) -> Vec<(String, usize)> {
    entries.iter().map(|e| (e.label.clone(), e.count)).collect()
}

#[test]
fn show_order_scenario() {
    let mut state = started();
    let a = member(1, "A");
    let b = member(2, "B");
    state.apply_vote(&"pe".to_string(), &a, vec![0, 2]);
    state.apply_vote(&"ps".to_string(), &a, vec![1]);
    state.apply_vote(&"pe".to_string(), &b, vec![1]);
    let summary = state.show_order(CHAT).unwrap();
    assert_eq!(
        tally_pairs(&summary.entrants),
        vec![("XL - soup".to_string(), 1), ("salad".to_string(), 1)]
    );
    assert_eq!(tally_pairs(&summary.seconds), vec![("meat".to_string(), 1)]);
    assert!(summary.entrants[0].oversized);
    assert_eq!(summary.entrants[0].dish, 0);
    assert_eq!(count(&state, 1, Metric::XlDishes), 1);
    assert_eq!(count(&state, 2, Metric::XlDishes), 0);
    let ids: Vec<u64> = summary.oversized.iter().map(|m| m.id).collect();
    assert_eq!(ids, vec![1]);
}

#[test]
fn nominate_without_votes() {
    let state = started();
    assert_eq!(state.nominate_caller(CHAT).map(|m| m.id), Err(LunchError::NoVotes));
    assert_eq!(state.pick_caller(CHAT, 3).map(|m| m.id), Err(LunchError::NoVotes));
}

#[test]
fn nominate_counts_only_members_with_a_selection() {
    let mut state = started();
    state.apply_vote(&"pe".to_string(), &member(1, "A"), vec![]);
    assert_eq!(state.nominate_caller(CHAT).map(|m| m.id), Err(LunchError::NoVotes));
    state.apply_vote(&"ps".to_string(), &member(2, "B"), vec![0]);
    let picked = state.nominate_caller(CHAT).unwrap();
    assert_eq!(picked.id, 2);
    assert_eq!(picked.name, "B");
}

#[test]
fn nominate_picks_a_voter() {
    let mut state = started();
    for id in 1..=4u64 {
        state.apply_vote(&"pe".to_string(), &member(id, "m"), vec![0]);
    }
    for _ in 0..50 {
        let id = state.nominate_caller(CHAT).unwrap().id;
        assert!((1..=4).contains(&id));
    }
}

#[test]
fn pick_caller_uses_the_draw() {
    let mut state = started();
    state.apply_vote(&"pe".to_string(), &member(5, "E"), vec![0]);
    state.apply_vote(&"pe".to_string(), &member(6, "F"), vec![1]);
    state.apply_vote(&"ps".to_string(), &member(7, "G"), vec![1]);
    assert_eq!(state.pick_caller(CHAT, 0).unwrap().id, 5);
    assert_eq!(state.pick_caller(CHAT, 1).unwrap().id, 6);
    assert_eq!(state.pick_caller(CHAT, 5).unwrap().id, 7);
}

#[test]
fn no_round_errors() {
    let mut state = LunchState::new();
    assert_eq!(state.nominate_caller(CHAT).map(|m| m.id), Err(LunchError::NoActiveRound));
    assert_eq!(state.show_order(CHAT).err(), Some(LunchError::NoActiveRound));
    assert_eq!(
        state.call_made(CHAT, &member(1, "A")).map(|m| m.id),
        Err(LunchError::NoActiveRound)
    );
    assert_eq!(
        state.apply_vote(&"pe".to_string(), &member(1, "A"), vec![0]),
        VoteOutcome::NoMatchingRound
    );
}

#[test]
fn empty_menu_is_refused() {
    let mut state = LunchState::new();
    let r = state.start_round(
        CHAT,
        &member(9, "starter"),
        Vec::new(),
        strings(&["fish", "XL"]),
        "pe".to_string(),
        "ps".to_string(),
    );
    assert_eq!(r, Err(LunchError::MenuUnavailable));
    assert!(state.rounds.get_round(CHAT).is_none());
    assert_eq!(count(&state, 9, Metric::PollsMade), 0);
}

#[test]
fn start_round_credits_the_starter() {
    let state = started();
    assert_eq!(count(&state, 9, Metric::PollsMade), 1);
    let round = state.rounds.get_round(CHAT).unwrap();
    assert!(!round.first_vote_recorded);
    assert!(!round.call_made);
    assert!(round.ballots.is_empty());
}

#[test]
fn call_made_twice() {
    let mut state = started();
    state.apply_vote(&"pe".to_string(), &member(1, "A"), vec![0]);
    state.apply_vote(&"pe".to_string(), &member(2, "B"), vec![1]);
    let caller = member(3, "C");
    assert_eq!(state.call_made(CHAT, &caller).map(|m| m.id), Ok(2));
    assert_eq!(count(&state, 3, Metric::CallsMade), 1);
    assert_eq!(count(&state, 2, Metric::Slowest), 1);
    assert_eq!(
        state.call_made(CHAT, &caller).map(|m| m.id),
        Err(LunchError::AlreadyCalled)
    );
    assert_eq!(count(&state, 3, Metric::CallsMade), 1);
    assert_eq!(count(&state, 2, Metric::Slowest), 1);
}

#[test]
fn call_made_without_votes() {
    let mut state = started();
    assert_eq!(
        state.call_made(CHAT, &member(3, "C")).map(|m| m.id),
        Err(LunchError::NoVotes)
    );
    assert!(!state.rounds.get_round(CHAT).unwrap().call_made);
    assert_eq!(count(&state, 3, Metric::CallsMade), 0);
}

#[test]
fn first_vote_counted_once() {
    let mut state = started();
    let order = [3u64, 1, 2, 3, 1];
    for id in order {
        let out = state.apply_vote(&"ps".to_string(), &member(id, "m"), vec![0]);
        assert_eq!(out, VoteOutcome::Recorded { chat_id: CHAT, side: PollSide::Seconds });
    }
    assert_eq!(count(&state, 3, Metric::Fastest), 1);
    assert_eq!(count(&state, 1, Metric::Fastest), 0);
    assert_eq!(count(&state, 2, Metric::Fastest), 0);
    let round = state.rounds.get_round(CHAT).unwrap();
    assert!(round.first_vote_recorded);
    assert_eq!(round.last_voting_member.as_ref().map(|m| m.id), Some(1));
}

#[test]
fn late_vote_dropped() {
    let mut state = started();
    state.apply_vote(&"pe".to_string(), &member(1, "A"), vec![0]);
    state.call_made(CHAT, &member(1, "A")).unwrap();
    let out = state.apply_vote(&"pe".to_string(), &member(1, "A"), vec![1]);
    assert_eq!(out, VoteOutcome::TooLate { chat_id: CHAT });
    let out = state.apply_vote(&"ps".to_string(), &member(2, "B"), vec![1]);
    assert_eq!(out, VoteOutcome::TooLate { chat_id: CHAT });
    assert_eq!(count(&state, 1, Metric::OutOfTime), 1);
    assert_eq!(count(&state, 2, Metric::OutOfTime), 1);
    let round = state.rounds.get_round(CHAT).unwrap();
    assert_eq!(round.ballots.len(), 1);
    assert_eq!(round.ballots[0].entrants, vec![0]);
    assert!(round.ballots[0].seconds.is_empty());
}

#[test]
fn retractions_each_count() {
    let mut state = started();
    let a = member(1, "A");
    state.apply_vote(&"pe".to_string(), &a, vec![0]);
    state.apply_vote(&"pe".to_string(), &a, vec![]);
    state.apply_vote(&"pe".to_string(), &a, vec![]);
    assert_eq!(count(&state, 1, Metric::Retracts), 2);
    let round = state.rounds.get_round(CHAT).unwrap();
    assert!(round.ballots[0].entrants.is_empty());
}

#[test]
fn selection_is_replaced_not_merged() {
    let mut state = started();
    let a = member(1, "A");
    state.apply_vote(&"pe".to_string(), &a, vec![0, 1]);
    state.apply_vote(&"ps".to_string(), &a, vec![2]);
    state.apply_vote(&"pe".to_string(), &a, vec![1]);
    let round = state.rounds.get_round(CHAT).unwrap();
    assert_eq!(round.ballots.len(), 1);
    assert_eq!(round.ballots[0].entrants, vec![1]);
    assert_eq!(round.ballots[0].seconds, vec![2]);
}

#[test]
fn oversized_in_both_polls_counts_once() {
    let mut state = started();
    let a = member(1, "A");
    state.apply_vote(&"pe".to_string(), &a, vec![0, 2]);
    state.apply_vote(&"ps".to_string(), &a, vec![1, 2]);
    let summary = state.show_order(CHAT).unwrap();
    assert_eq!(summary.newly_oversized.len(), 1);
    assert_eq!(count(&state, 1, Metric::XlDishes), 1);
    let again = state.show_order(CHAT).unwrap();
    assert!(again.newly_oversized.is_empty());
    assert_eq!(again.oversized.len(), 1);
    assert_eq!(again.oversized[0].id, 1);
    assert_eq!(count(&state, 1, Metric::XlDishes), 1);
    assert_eq!(
        tally_pairs(&again.seconds),
        vec![("XL - meat".to_string(), 1)]
    );
}

#[test]
fn marker_alone_adds_no_dish() {
    let mut state = started();
    state.apply_vote(&"pe".to_string(), &member(1, "A"), vec![2]);
    let summary = state.show_order(CHAT).unwrap();
    assert!(summary.entrants.is_empty());
    assert_eq!(count(&state, 1, Metric::XlDishes), 1);
}

#[test]
fn tally_separates_plain_and_oversized() {
    let mut state = started();
    state.apply_vote(&"pe".to_string(), &member(1, "A"), vec![0]);
    state.apply_vote(&"pe".to_string(), &member(2, "B"), vec![0, 2]);
    state.apply_vote(&"pe".to_string(), &member(3, "C"), vec![0]);
    state.apply_vote(&"pe".to_string(), &member(4, "D"), vec![1, 0, 2]);
    let summary = state.show_order(CHAT).unwrap();
    assert_eq!(
        tally_pairs(&summary.entrants),
        vec![
            ("soup".to_string(), 2),
            ("XL - soup".to_string(), 2),
            ("XL - salad".to_string(), 1)
        ]
    );
}

#[test]
fn round_replacement_drops_old_polls() {
    let mut state = started();
    state.apply_vote(&"pe".to_string(), &member(1, "A"), vec![0]);
    let r = state.start_round(
        CHAT,
        &member(9, "starter"),
        strings(&["rice", "XL"]),
        strings(&["egg", "XL"]),
        "pe2".to_string(),
        "ps2".to_string(),
    );
    assert_eq!(r, Ok(()));
    assert!(state.rounds.get_round(CHAT).unwrap().ballots.is_empty());
    assert_eq!(
        state.apply_vote(&"pe".to_string(), &member(1, "A"), vec![0]),
        VoteOutcome::NoMatchingRound
    );
    assert_eq!(count(&state, 9, Metric::PollsMade), 2);
    assert_eq!(
        state.apply_vote(&"pe2".to_string(), &member(1, "A"), vec![0]),
        VoteOutcome::Recorded { chat_id: CHAT, side: PollSide::Entrants }
    );
    assert_eq!(count(&state, 1, Metric::Fastest), 2);
}

#[test]
fn chats_keep_separate_rounds() {
    let mut state = started();
    state
        .start_round(
            7,
            &member(9, "starter"),
            strings(&["rice", "XL"]),
            strings(&["egg", "XL"]),
            "qe".to_string(),
            "qs".to_string(),
        )
        .unwrap();
    assert_eq!(
        state.apply_vote(&"qs".to_string(), &member(1, "A"), vec![0]),
        VoteOutcome::Recorded { chat_id: 7, side: PollSide::Seconds }
    );
    assert!(state.rounds.get_round(CHAT).unwrap().ballots.is_empty());
    assert_eq!(count(&state, 1, Metric::Fastest), 0);
    assert_eq!(state.scores.get(7, 1).unwrap().fastest_answering, 1);
}

#[test]
fn tupper_counted() {
    let mut state = LunchState::new();
    state.bring_item(CHAT, &member(4, "D"));
    state.bring_item(CHAT, &member(4, "D"));
    assert_eq!(count(&state, 4, Metric::Tuppers), 2);
}

#[test]
fn ranking_rises_with_ties_by_id() {
    let mut state = LunchState::new();
    state.bring_item(CHAT, &member(5, "E"));
    state.bring_item(CHAT, &member(5, "E"));
    state.bring_item(CHAT, &member(3, "C"));
    state.touch(CHAT, &member(8, "H"));
    state.bring_item(CHAT, &member(1, "A"));
    state.bring_item(11, &member(2, "other chat"));
    let ranking = state.ranking(CHAT, Metric::Tuppers);
    let rows: Vec<(u64, String, u64)> =
        ranking.iter().map(|e| (e.user_id, e.name.clone(), e.count)).collect();
    assert_eq!(
        rows,
        vec![
            (8, "H".to_string(), 0),
            (1, "A".to_string(), 1),
            (3, "C".to_string(), 1),
            (5, "E".to_string(), 2)
        ]
    );
}

#[test]
fn touch_refreshes_the_name() {
    let mut state = LunchState::new();
    state.bring_item(CHAT, &member(5, "old"));
    state.touch(CHAT, &member(5, "new"));
    let rec = state.scores.get(CHAT, 5).unwrap();
    assert_eq!(rec.name, "new");
    assert_eq!(rec.tupper_count, 1);
}
