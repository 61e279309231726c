use stake_voting::engine::Engine;
use stake_voting::errors::Error;
use stake_voting::tally::Sign;
use stake_voting::tally::Threshold;
use stake_voting::voting::Voting;

fn create_voting(
    engine: &mut Engine,
    author: u64,
    asset: u64,
    start: u64,
    end: Option<u64>,
    threshold: Threshold,
    call: Vec<u8>,
) -> Vec<u8> {
    let v = Voting::assemble(author, asset, start, end, threshold, &call);
    let id = v.derive_id();
    engine
        .create(author, &id, asset, Some(start), end, threshold, call, start)
        .unwrap();
    id
}

#[test]
fn invalid_threshold_is_rejected_at_creation() {
    let mut engine = Engine::new();
    let call = vec![1u8, 2];
    let th = Threshold::RelativeExcept(1_000_001);
    let v = Voting::assemble(1, 42, 0, None, th, &call);
    let id = v.derive_id();
    let r = engine.create(1, &id, 42, Some(0), None, th, call, 0);
    assert_eq!(r, Err(Error::InvalidThreshold));
    assert!(engine.get_voting(&id).is_none());
}

#[test]
fn mismatched_id_is_rejected() {
    let mut engine = Engine::new();
    let call = vec![1u8, 2];
    let th = Threshold::Absolute(10);
    // an id derived for a different author does not match the record
    let other = Voting::assemble(9, 42, 0, None, th, &call);
    let wrong_id = other.derive_id();
    let r = engine.create(1, &wrong_id, 42, Some(0), None, th, call, 0);
    assert_eq!(r, Err(Error::IdMismatch));
    assert!(engine.get_voting(&wrong_id).is_none());
}

#[test]
fn duplicate_id_is_rejected() {
    let mut engine = Engine::new();
    let call = vec![1u8, 2];
    let th = Threshold::Absolute(10);
    let id = create_voting(&mut engine, 1, 42, 0, None, th, call.clone());
    let r = engine.create(1, &id, 42, Some(0), None, th, call, 0);
    assert_eq!(r, Err(Error::DuplicateId));
    assert!(engine.get_voting(&id).is_some());
}

#[test]
fn operations_on_an_unknown_voting_fail() {
    let mut engine = Engine::new();
    let missing_id = vec![0u8; 32];
    assert_eq!(
        engine.vote(1, &missing_id, Sign::Positive, 10, 0),
        Err(Error::UnknownVoting)
    );
    assert_eq!(engine.execute(1, &missing_id, 100), Err(Error::UnknownVoting));
    assert_eq!(engine.close(1, &missing_id, 0), Err(Error::UnknownVoting));
    assert_eq!(engine.unvote(1, &missing_id), Err(Error::NoSuchVote));
}

#[test]
fn a_zero_stake_voter_has_nothing_to_cast() {
    let mut engine = Engine::new();
    let id = create_voting(&mut engine, 1, 42, 0, None, Threshold::Absolute(10), vec![3u8]);
    assert_eq!(engine.vote(2, &id, Sign::Positive, 0, 0), Err(Error::NoStake));
    assert_eq!(engine.get_tally(&id), None);
}

#[test]
fn voting_outside_the_window_fails() {
    let mut engine = Engine::new();
    let id = create_voting(
        &mut engine,
        1,
        42,
        10,
        Some(20),
        Threshold::Absolute(10),
        vec![3u8],
    );
    // before the start
    assert_eq!(
        engine.vote(2, &id, Sign::Positive, 5, 9),
        Err(Error::VotingNotOpen)
    );
    // at the end
    assert_eq!(
        engine.vote(2, &id, Sign::Positive, 5, 20),
        Err(Error::VotingNotOpen)
    );
    // inside the window
    assert!(engine.vote(2, &id, Sign::Positive, 5, 10).is_ok());
}

#[test]
fn withdrawing_a_never_cast_vote_fails() {
    let mut engine = Engine::new();
    let id = create_voting(&mut engine, 1, 42, 0, None, Threshold::Absolute(10), vec![3u8]);
    assert_eq!(engine.unvote(2, &id), Err(Error::NoSuchVote));
    // and it must fail, not silently do nothing, after a real unvote
    engine.vote(2, &id, Sign::Positive, 5, 0).unwrap();
    engine.unvote(2, &id).unwrap();
    assert_eq!(engine.unvote(2, &id), Err(Error::NoSuchVote));
}

#[test]
fn executing_before_any_vote_fails() {
    let mut engine = Engine::new();
    let id = create_voting(&mut engine, 1, 42, 0, None, Threshold::Absolute(0), vec![3u8]);
    assert_eq!(engine.execute(1, &id, 100), Err(Error::NotVotedYet));
    assert!(engine.get_voting(&id).is_some());
}

#[test]
fn unknown_call_digest_is_reported() {
    let engine = Engine::new();
    assert_eq!(engine.get_call(&vec![0u8; 32]), Err(Error::UnknownCall));
}

#[test]
fn derived_identifiers_are_digests_of_the_content() {
    let call = vec![1u8, 2, 3];
    let a = Voting::assemble(1, 42, 0, None, Threshold::Absolute(10), &call);
    let b = Voting::assemble(2, 42, 0, None, Threshold::Absolute(10), &call);
    // a digest, not the encoding: always 32 bytes, and content-sensitive
    assert_eq!(a.derive_id().len(), 32);
    assert!(a.encode().len() != 32);
    assert_ne!(a.derive_id(), b.derive_id());
    assert_eq!(a.derive_id(), a.derive_id());
    // the call digest is likewise 32 bytes and content-sensitive
    assert_eq!(a.call_hash.len(), 32);
    let c = Voting::assemble(1, 42, 0, None, Threshold::Absolute(10), &vec![1u8, 2, 4]);
    assert_ne!(a.call_hash, c.call_hash);
    assert_eq!(a.call_hash, b.call_hash);
}
