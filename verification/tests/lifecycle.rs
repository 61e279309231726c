use stake_voting::engine::Engine;
use stake_voting::errors::Error;
use stake_voting::tally::Sign;
use stake_voting::tally::TallyState;
use stake_voting::tally::Threshold;
use stake_voting::voting::Voting;

fn create_voting(
    engine: &mut Engine,
    author: u64,
    asset: u64,
    start: u64,
    end: Option<u64>,
    threshold: Threshold,
    call: Vec<u8>,
    now: u64,
) -> (Vec<u8>, u64) {
    let v = Voting::assemble(author, asset, start, end, threshold, &call);
    let id = v.derive_id();
    let deposit = engine
        .create(author, &id, asset, Some(start), end, threshold, call, now)
        .unwrap();
    (id, deposit)
}

#[test]
fn create_reserves_deposit_and_stores_everything() {
    let mut engine = Engine::new();
    let call = vec![1u8, 2, 3, 4, 5];
    let (id, deposit) = create_voting(
        &mut engine,
        7,
        42,
        10,
        None,
        Threshold::Absolute(150),
        call.clone(),
        10,
    );
    assert!(deposit > 0);
    assert_eq!(deposit, 6); // proportional to the 5-byte call
    assert_eq!(engine.get_deposit(&id), Some(6));
    let stored = engine.get_voting(&id).unwrap();
    assert_eq!(stored.author, 7);
    assert_eq!(stored.asset, 42);
    assert_eq!(stored.start, 10);
    assert_eq!(stored.end, None);
    assert_eq!(stored.threshold, Threshold::Absolute(150));
    // the call is retrievable by its digest
    assert_eq!(stored.call_hash.len(), 32);
    assert_eq!(engine.get_call(&stored.call_hash).unwrap(), call);
    // no tally and no ledger entry yet
    assert_eq!(engine.get_tally(&id), None);
    assert!(!engine.has_open_vote(7, 42, &id));
}

#[test]
fn vote_updates_tally_and_ledger() {
    let mut engine = Engine::new();
    let (id, _) = create_voting(
        &mut engine,
        1,
        42,
        0,
        None,
        Threshold::Relative(1_000_000),
        vec![9u8; 3],
        0,
    );
    engine.vote(2, &id, Sign::Positive, 100, 5).unwrap();
    let t = engine.get_tally(&id).unwrap();
    assert_eq!(t, TallyState { votes: 1, yas: 100, sum: 100 });
    assert!(engine.has_open_vote(2, 42, &id));
    // the voting record itself is untouched
    assert_eq!(engine.get_voting(&id).unwrap().author, 1);
}

#[test]
fn negative_vote_counts_in_sum_but_not_in_yas() {
    let mut engine = Engine::new();
    let (id, _) = create_voting(
        &mut engine,
        1,
        42,
        0,
        None,
        Threshold::Absolute(10),
        vec![9u8; 3],
        0,
    );
    engine.vote(2, &id, Sign::Positive, 100, 0).unwrap();
    engine.vote(3, &id, Sign::Negative, 40, 0).unwrap();
    let t = engine.get_tally(&id).unwrap();
    assert_eq!(t, TallyState { votes: 2, yas: 100, sum: 140 });
    assert!(t.yas <= t.sum);
}

#[test]
fn vote_then_unvote_restores_the_tally() {
    let mut engine = Engine::new();
    let (id, _) = create_voting(
        &mut engine,
        1,
        42,
        0,
        None,
        Threshold::Relative(1_000_000),
        vec![0u8; 100],
        0,
    );
    engine.vote(1, &id, Sign::Positive, 100, 0).unwrap();
    let before = engine.get_tally(&id).unwrap();
    engine.vote(2, &id, Sign::Positive, 100, 0).unwrap();
    engine.unvote(2, &id).unwrap();
    let after = engine.get_tally(&id).unwrap();
    assert_eq!(before, after);
    assert_eq!(after, TallyState { votes: 1, yas: 100, sum: 100 });
    assert!(engine.has_open_vote(1, 42, &id));
    assert!(!engine.has_open_vote(2, 42, &id));
}

#[test]
fn second_vote_without_unvote_fails_and_changes_nothing() {
    let mut engine = Engine::new();
    let (id, _) = create_voting(
        &mut engine,
        1,
        42,
        0,
        None,
        Threshold::Absolute(500),
        vec![5u8; 8],
        0,
    );
    engine.vote(2, &id, Sign::Positive, 100, 0).unwrap();
    let before = engine.get_tally(&id).unwrap();
    let r = engine.vote(2, &id, Sign::Negative, 70, 0);
    assert_eq!(r, Err(Error::AlreadyVoted));
    assert_eq!(engine.get_tally(&id).unwrap(), before);
    assert!(engine.has_open_vote(2, 42, &id));
}

#[test]
fn absolute_threshold_scenario_executes_and_reclaims_storage() {
    // three accounts each hold 100 units of a 300-unit-supply asset
    let mut engine = Engine::new();
    let call = vec![7u8; 20];
    let (id, _) = create_voting(
        &mut engine,
        1,
        42,
        0,
        None,
        Threshold::Absolute(150),
        call.clone(),
        0,
    );
    let call_hash = engine.get_voting(&id).unwrap().call_hash;
    engine.vote(1, &id, Sign::Positive, 100, 0).unwrap();
    engine.vote(2, &id, Sign::Positive, 100, 0).unwrap();
    // yas = 200 >= 150
    let out = engine.execute(1, &id, 300).unwrap();
    assert_eq!(out.call, call);
    assert_eq!(out.author, 1);
    assert_eq!(out.deposit, 21);
    // voting, tally, call entry and every ledger entry are gone
    assert!(engine.get_voting(&id).is_none());
    assert_eq!(engine.get_tally(&id), None);
    assert_eq!(engine.get_call(&call_hash), Err(Error::UnknownCall));
    assert!(!engine.has_open_vote(1, 42, &id));
    assert!(!engine.has_open_vote(2, 42, &id));
}

#[test]
fn relative_threshold_scenario_needs_two_voters() {
    // asset supply 300; threshold 50%
    let mut engine = Engine::new();
    let (id, _) = create_voting(
        &mut engine,
        1,
        42,
        0,
        None,
        Threshold::Relative(500_000),
        vec![3u8; 4],
        0,
    );
    engine.vote(1, &id, Sign::Positive, 100, 0).unwrap();
    // 100 of 300 is 33%: not reached, and the failure mutates nothing
    assert_eq!(engine.execute(1, &id, 300), Err(Error::ThresholdNotReached));
    assert!(engine.get_voting(&id).is_some());
    assert_eq!(
        engine.get_tally(&id).unwrap(),
        TallyState { votes: 1, yas: 100, sum: 100 }
    );
    engine.vote(2, &id, Sign::Positive, 100, 0).unwrap();
    // 200 of 300 is 66%: reached
    assert!(engine.execute(1, &id, 300).is_ok());
}

#[test]
fn dilution_flips_the_evaluation_without_a_new_vote() {
    // a burn shrinks the supply; the live query decides, not a cached one
    let mut engine = Engine::new();
    let (id, _) = create_voting(
        &mut engine,
        1,
        42,
        0,
        None,
        Threshold::Relative(600_000),
        vec![8u8; 2],
        0,
    );
    engine.vote(1, &id, Sign::Positive, 100, 0).unwrap();
    // 100 of 300 is 33% < 60%
    assert_eq!(engine.execute(1, &id, 300), Err(Error::ThresholdNotReached));
    // half the supply is burned: 100 of 150 is 66% >= 60%
    assert!(engine.execute(1, &id, 150).is_ok());
    assert!(engine.get_voting(&id).is_none());
}

#[test]
fn close_reclaims_the_same_storage_as_execute() {
    let mut engine = Engine::new();
    let call = vec![4u8; 6];
    let (id, _) = create_voting(
        &mut engine,
        1,
        42,
        0,
        None,
        Threshold::Absolute(1_000),
        call.clone(),
        0,
    );
    let call_hash = engine.get_voting(&id).unwrap().call_hash;
    engine.vote(2, &id, Sign::Positive, 100, 0).unwrap();
    let refund = engine.close(1, &id, 0).unwrap();
    assert_eq!(refund.author, 1);
    assert_eq!(refund.amount, 7);
    assert!(engine.get_voting(&id).is_none());
    assert_eq!(engine.get_tally(&id), None);
    assert_eq!(engine.get_call(&call_hash), Err(Error::UnknownCall));
    assert!(!engine.has_open_vote(2, 42, &id));
}

#[test]
fn close_authorization_follows_author_and_end() {
    let mut engine = Engine::new();
    let (id, _) = create_voting(
        &mut engine,
        1,
        42,
        0,
        Some(100),
        Threshold::Absolute(10),
        vec![1u8],
        0,
    );
    // a stranger may not close before the end
    assert_eq!(engine.close(2, &id, 50), Err(Error::NotAuthorized));
    assert!(engine.get_voting(&id).is_some());
    // anyone may close once the end has passed
    assert!(engine.close(2, &id, 100).is_ok());
    assert!(engine.get_voting(&id).is_none());
}

#[test]
fn identical_calls_share_one_store_entry() {
    let mut engine = Engine::new();
    let call = vec![6u8; 10];
    let (id1, _) = create_voting(
        &mut engine,
        1,
        42,
        0,
        None,
        Threshold::Absolute(10),
        call.clone(),
        0,
    );
    let (id2, _) = create_voting(
        &mut engine,
        2,
        42,
        0,
        None,
        Threshold::Absolute(10),
        call.clone(),
        0,
    );
    assert_ne!(id1, id2);
    let call_hash = engine.get_voting(&id1).unwrap().call_hash;
    assert_eq!(engine.get_voting(&id2).unwrap().call_hash, call_hash);
    // releasing one reference keeps the shared entry alive
    engine.close(1, &id1, 0).unwrap();
    assert_eq!(engine.get_call(&call_hash).unwrap(), call);
    // releasing the last reference removes it
    engine.close(2, &id2, 0).unwrap();
    assert_eq!(engine.get_call(&call_hash), Err(Error::UnknownCall));
}
