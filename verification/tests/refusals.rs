use tcr::error::Error;
use tcr::tcr::{GenesisConfig, Module as Tcr};
use tcr::token::{GenesisConfig as TokenGenesis, Module as Token};

fn fresh(total_supply: u64) -> (Token, Tcr) {
    let mut token = Token::new(TokenGenesis { total_supply });
    let mut tcr = Tcr::new(GenesisConfig {
        owner: 1,
        min_deposit: Some(100),
        apply_stage_len: Some(10),
        commit_stage_len: Some(10),
        poll_nonce: 1,
    })
    .unwrap();
    tcr.init(&mut token, 1).unwrap();
    (token, tcr)
}

fn challenged() -> (Token, Tcr) {
    let (mut token, mut tcr) = fresh(1000);
    tcr.propose(&mut token, 1, vec![b'X'], 101, 0).unwrap();
    token.transfer(1, 2, 200).unwrap();
    token.transfer(1, 3, 200).unwrap();
    tcr.challenge(&mut token, 2, 0, 101, 5).unwrap();
    (token, tcr)
}

#[test]
fn data_of_256_bytes_is_accepted_and_257_refused() {
    let (mut token, mut tcr) = fresh(1000);
    assert_eq!(
        tcr.propose(&mut token, 1, vec![7; 257], 101, 0).unwrap_err(),
        Error::InputTooLarge
    );
    assert_eq!(tcr.listing_count(), 0);
    assert!(tcr.propose(&mut token, 1, vec![7; 256], 101, 0).is_ok());
}

#[test]
fn too_long_data_is_refused_before_the_deposit_is_looked_at() {
    let (mut token, mut tcr) = fresh(1000);
    assert_eq!(tcr.propose(&mut token, 1, vec![7; 300], 1, 0).unwrap_err(), Error::InputTooLarge);
}

#[test]
fn deposit_equal_to_the_minimum_is_accepted() {
    let (mut token, mut tcr) = fresh(1000);
    assert!(tcr.propose(&mut token, 1, vec![1], 100, 0).is_ok());
}

#[test]
fn propose_without_parameters_is_refused() {
    let mut token = Token::new(TokenGenesis { total_supply: 1000 });
    let mut tcr = Tcr::new(GenesisConfig {
        owner: 1,
        min_deposit: None,
        apply_stage_len: None,
        commit_stage_len: None,
        poll_nonce: 1,
    })
    .unwrap();
    tcr.init(&mut token, 1).unwrap();
    assert_eq!(tcr.propose(&mut token, 1, vec![1], 101, 0).unwrap_err(), Error::ConfigurationMissing);
    tcr.set_config(1, 100, 10, 10).unwrap();
    assert!(tcr.propose(&mut token, 1, vec![1], 101, 0).is_ok());
}

#[test]
fn expiry_that_does_not_fit_is_refused() {
    let (mut token, mut tcr) = fresh(1000);
    assert_eq!(
        tcr.propose(&mut token, 1, vec![1], 101, u64::MAX - 9).unwrap_err(),
        Error::ArithmeticOverflow
    );
    let events = tcr.propose(&mut token, 1, vec![1], 101, u64::MAX - 10);
    assert!(events.is_ok());
}

#[test]
fn same_data_twice_is_refused() {
    let (mut token, mut tcr) = fresh(1000);
    tcr.propose(&mut token, 1, vec![1], 101, 0).unwrap();
    assert_eq!(tcr.propose(&mut token, 1, vec![1], 101, 0).unwrap_err(), Error::AlreadyExists);
    assert_eq!(tcr.listing_count(), 1);
    assert_eq!(token.balance_of(1), 899);
}

#[test]
fn propose_needs_a_balance_above_the_deposit() {
    let (mut token, mut tcr) = fresh(1000);
    assert_eq!(tcr.propose(&mut token, 2, vec![1], 101, 0).unwrap_err(), Error::UnknownAccount);
    assert_eq!(tcr.propose(&mut token, 1, vec![1], 1000, 0).unwrap_err(), Error::InsufficientBalance);
    assert_eq!(tcr.listing_count(), 0);
    assert!(tcr.propose(&mut token, 1, vec![1], 999, 0).is_ok());
    assert_eq!(token.balance_of(1), 1);
}

#[test]
fn init_is_for_the_owner_and_once() {
    let mut token = Token::new(TokenGenesis { total_supply: 1000 });
    let mut tcr = Tcr::new(GenesisConfig {
        owner: 1,
        min_deposit: Some(100),
        apply_stage_len: Some(10),
        commit_stage_len: Some(10),
        poll_nonce: 1,
    })
    .unwrap();
    assert_eq!(tcr.init(&mut token, 2).unwrap_err(), Error::Unauthorized);
    assert!(!token.is_init());
    assert!(!tcr.admins(2));
    assert_eq!(tcr.init(&mut token, 1), Ok(()));
    assert_eq!(tcr.init(&mut token, 1).unwrap_err(), Error::AlreadyInitialized);
    assert_eq!(token.balance_of(1), 1000);
}

#[test]
fn admins_set_parameters_and_name_admins() {
    let (_, mut tcr) = fresh(1000);
    assert_eq!(tcr.owner(), 1);
    assert_eq!(tcr.set_config(2, 1, 2, 3).unwrap_err(), Error::Unauthorized);
    assert_eq!(tcr.min_deposit(), Some(100));
    assert_eq!(tcr.add_admin(2, 3).unwrap_err(), Error::Unauthorized);
    assert_eq!(tcr.add_admin(1, 2), Ok(()));
    assert!(tcr.admins(2));
    assert_eq!(tcr.set_config(2, 1, 2, 3), Ok(()));
    assert_eq!(tcr.min_deposit(), Some(1));
    assert_eq!(tcr.apply_stage_len(), Some(2));
    assert_eq!(tcr.commit_stage_len(), Some(3));
    assert_eq!(tcr.remove_admin(3, 1).unwrap_err(), Error::Unauthorized);
    assert_eq!(tcr.remove_admin(2, 3).unwrap_err(), Error::NotFound);
    assert_eq!(tcr.remove_admin(2, 1), Ok(()));
    assert!(!tcr.admins(1));
    assert!(tcr.admins(2));
    assert_eq!(tcr.set_config(1, 5, 5, 5).unwrap_err(), Error::Unauthorized);
}

#[test]
fn challenge_refusals() {
    let (mut token, mut tcr) = fresh(1000);
    tcr.propose(&mut token, 1, vec![b'X'], 101, 0).unwrap();
    token.transfer(1, 2, 200).unwrap();
    assert_eq!(tcr.challenge(&mut token, 2, 5, 101, 0).unwrap_err(), Error::NotFound);
    assert_eq!(tcr.challenge(&mut token, 2, 0, 100, 0).unwrap_err(), Error::InsufficientDeposit);
    assert_eq!(tcr.challenge(&mut token, 2, 0, 101, 10).unwrap_err(), Error::WindowClosed);
    assert_eq!(
        tcr.challenge(&mut token, 2, 0, 101, u64::MAX).unwrap_err(),
        Error::ArithmeticOverflow
    );
    assert_eq!(tcr.challenge(&mut token, 2, 0, 200, 9).unwrap_err(), Error::InsufficientBalance);
    assert_eq!(tcr.challenge(&mut token, 7, 0, 101, 9).unwrap_err(), Error::UnknownAccount);
    assert_eq!(tcr.poll_nonce(), 1);
    assert_eq!(token.balance_of(2), 200);
    assert!(tcr.challenge(&mut token, 2, 0, 101, 9).is_ok());
    assert_eq!(tcr.challenge(&mut token, 2, 0, 101, 9).unwrap_err(), Error::AlreadyChallenged);
}

#[test]
fn challenge_without_commit_stage_length_is_refused() {
    let mut token = Token::new(TokenGenesis { total_supply: 1000 });
    let mut tcr = Tcr::new(GenesisConfig {
        owner: 1,
        min_deposit: Some(100),
        apply_stage_len: Some(10),
        commit_stage_len: None,
        poll_nonce: 1,
    })
    .unwrap();
    tcr.init(&mut token, 1).unwrap();
    tcr.propose(&mut token, 1, vec![b'X'], 101, 0).unwrap();
    token.transfer(1, 2, 200).unwrap();
    assert_eq!(tcr.challenge(&mut token, 2, 0, 101, 0).unwrap_err(), Error::ConfigurationMissing);
}

#[test]
fn challenge_numbers_run_out() {
    let mut token = Token::new(TokenGenesis { total_supply: 1000 });
    let mut tcr = Tcr::new(GenesisConfig {
        owner: 1,
        min_deposit: Some(100),
        apply_stage_len: Some(10),
        commit_stage_len: Some(10),
        poll_nonce: u32::MAX,
    })
    .unwrap();
    tcr.init(&mut token, 1).unwrap();
    tcr.propose(&mut token, 1, vec![b'X'], 101, 0).unwrap();
    token.transfer(1, 2, 200).unwrap();
    assert_eq!(tcr.challenge(&mut token, 2, 0, 101, 0).unwrap_err(), Error::ArithmeticOverflow);
    assert_eq!(token.balance_of(2), 200);
    assert_eq!(tcr.poll_nonce(), u32::MAX);
}

#[test]
fn vote_refusals() {
    let (mut token, mut tcr) = challenged();
    assert_eq!(tcr.vote(&mut token, 3, 9, true, 50, 6).unwrap_err(), Error::NotFound);
    assert_eq!(tcr.vote(&mut token, 3, 1, true, 50, 15).unwrap_err(), Error::WindowClosed);
    assert_eq!(tcr.vote(&mut token, 3, 1, true, 200, 6).unwrap_err(), Error::InsufficientBalance);
    assert_eq!(tcr.vote(&mut token, 8, 1, true, 50, 6).unwrap_err(), Error::UnknownAccount);
    assert_eq!(tcr.polls(1).unwrap().votes_for, 101);
    assert!(tcr.votes(1, 3).is_none());
    assert!(tcr.vote(&mut token, 3, 1, true, 50, 14).is_ok());
    tcr.resolve(&mut token, 0, 15).unwrap();
    assert_eq!(tcr.vote(&mut token, 3, 1, true, 50, 6).unwrap_err(), Error::AlreadyResolved);
}

#[test]
fn tally_that_does_not_fit_is_refused() {
    let (mut token, mut tcr) = fresh(u64::MAX);
    tcr.propose(&mut token, 1, vec![b'X'], u64::MAX - 10, 0).unwrap();
    let hash = tcr.index_hash(0).unwrap();
    token.unlock(2, u64::MAX - 10, hash).unwrap();
    token.transfer(1, 2, 5).unwrap();
    tcr.challenge(&mut token, 2, 0, u64::MAX - 10, 1).unwrap();
    token.unlock(3, 1000, hash).unwrap();
    assert_eq!(tcr.vote(&mut token, 3, 1, true, 11, 2).unwrap_err(), Error::ArithmeticOverflow);
    assert_eq!(token.balance_of(3), 1000);
    assert_eq!(tcr.polls(1).unwrap().votes_for, u64::MAX - 10);
    assert!(tcr.votes(1, 3).is_none());
    assert!(tcr.vote(&mut token, 3, 1, true, 10, 2).is_ok());
    assert_eq!(tcr.polls(1).unwrap().votes_for, u64::MAX);
}

#[test]
fn resolve_refusals() {
    let (mut token, mut tcr) = challenged();
    assert_eq!(tcr.resolve(&mut token, 4, 100).unwrap_err(), Error::NotFound);
    assert_eq!(tcr.resolve(&mut token, 0, 14).unwrap_err(), Error::WindowNotYetClosed);
    assert!(!tcr.challenges(1).unwrap().resolved);
    assert_eq!(tcr.listings(tcr.index_hash(0).unwrap()).unwrap().challenge_id, 1);
    assert!(tcr.resolve(&mut token, 0, 15).is_ok());
}

#[test]
fn reward_pool_that_does_not_fit_is_refused() {
    let half: u64 = 1 << 63;
    let (mut token, mut tcr) = fresh(u64::MAX);
    tcr.propose(&mut token, 1, vec![b'X'], half, 0).unwrap();
    let hash = tcr.index_hash(0).unwrap();
    token.unlock(2, half, hash).unwrap();
    token.transfer(1, 2, 1).unwrap();
    tcr.challenge(&mut token, 2, 0, half, 1).unwrap();
    assert_eq!(tcr.resolve(&mut token, 0, 11).unwrap_err(), Error::ArithmeticOverflow);
    assert!(!tcr.challenges(1).unwrap().resolved);
    assert!(!tcr.polls(1).unwrap().passed);
    assert_eq!(tcr.listings(hash).unwrap().challenge_id, 1);
}

#[test]
fn reward_pool_of_a_rejection_that_does_not_fit_is_refused() {
    let half: u64 = 1 << 63;
    let (mut token, mut tcr) = fresh(u64::MAX);
    tcr.propose(&mut token, 1, vec![b'X'], half, 0).unwrap();
    let hash = tcr.index_hash(0).unwrap();
    token.unlock(2, half, hash).unwrap();
    token.transfer(1, 2, 2).unwrap();
    tcr.challenge(&mut token, 2, 0, half + 1, 1).unwrap();
    assert_eq!(tcr.resolve(&mut token, 0, 11).unwrap_err(), Error::ArithmeticOverflow);
    assert!(!tcr.challenges(1).unwrap().resolved);
    assert_eq!(token.balance_of(2), 1);
    assert_eq!(token.locked_deposits(hash), half + 1);
}

#[test]
fn rejection_is_refused_where_the_escrow_is_short() {
    let (mut token, mut tcr) = fresh(1000);
    tcr.propose(&mut token, 1, vec![b'X'], 101, 0).unwrap();
    let hash = tcr.index_hash(0).unwrap();
    token.transfer(1, 2, 300).unwrap();
    tcr.challenge(&mut token, 2, 0, 150, 1).unwrap();
    token.unlock(9, 200, hash).unwrap();
    assert_eq!(tcr.resolve(&mut token, 0, 11).unwrap_err(), Error::ArithmeticUnderflow);
    assert!(!tcr.challenges(1).unwrap().resolved);
    assert_eq!(tcr.listings(hash).unwrap().challenge_id, 1);
    assert_eq!(token.balance_of(2), 150);
}

#[test]
fn claim_on_an_empty_winning_tally_is_refused() {
    let (mut token, mut tcr) = fresh(1000);
    tcr.set_config(1, 0, 10, 10).unwrap();
    tcr.propose(&mut token, 1, vec![b'X'], 0, 0).unwrap();
    token.transfer(1, 2, 10).unwrap();
    token.transfer(1, 3, 10).unwrap();
    tcr.challenge(&mut token, 2, 0, 0, 1).unwrap();
    tcr.vote(&mut token, 3, 1, true, 0, 2).unwrap();
    tcr.resolve(&mut token, 0, 11).unwrap();
    assert_eq!(tcr.challenges(1).unwrap().total_tokens, 0);
    assert_eq!(tcr.challenges(1).unwrap().reward_pool, 0);
    assert_eq!(tcr.claim_reward(&mut token, 3, 1).unwrap_err(), Error::ArithmeticOverflow);
    assert!(!tcr.votes(1, 3).unwrap().claimed);
}

#[test]
fn reward_counts_whole_tokens_per_winning_token() {
    let (mut token, mut tcr) = fresh(u64::MAX);
    tcr.set_config(1, 0, 10, 10).unwrap();
    tcr.propose(&mut token, 1, vec![b'X'], 1, 0).unwrap();
    let hash = tcr.index_hash(0).unwrap();
    token.transfer(1, 2, 1 << 40).unwrap();
    token.transfer(1, 3, 1 << 40).unwrap();
    tcr.challenge(&mut token, 2, 0, 1 << 33, 1).unwrap();
    tcr.vote(&mut token, 3, 1, false, 1 << 33, 2).unwrap();
    tcr.vote(&mut token, 3, 1, false, 1 << 33, 3).unwrap();
    tcr.resolve(&mut token, 0, 11).unwrap();
    let challenge = tcr.challenges(1).unwrap();
    assert_eq!(challenge.total_tokens, 3 << 33);
    assert_eq!(challenge.reward_pool, 2);
    assert_eq!(token.balance_of(2), 1 << 40);
    tcr.claim_reward(&mut token, 3, 1).unwrap();
    assert_eq!(token.balance_of(3), (1 << 40) - (1 << 33));
    assert_eq!(token.locked_deposits(hash), 1 + (1 << 33));
}

#[test]
fn payment_that_does_not_fit_is_refused() {
    let half: u64 = 1 << 63;
    let (mut token, mut tcr) = fresh(u64::MAX);
    tcr.set_config(1, 0, 10, 10).unwrap();
    tcr.propose(&mut token, 1, vec![b'X'], 0, 0).unwrap();
    let hash = tcr.index_hash(0).unwrap();
    token.transfer(1, 2, half).unwrap();
    tcr.challenge(&mut token, 2, 0, half - 1, 1).unwrap();
    token.unlock(3, half - 1, hash).unwrap();
    token.transfer(1, 3, 2).unwrap();
    tcr.vote(&mut token, 3, 1, true, half, 2).unwrap();
    tcr.resolve(&mut token, 0, 11).unwrap();
    let challenge = tcr.challenges(1).unwrap();
    assert_eq!(challenge.total_tokens, half);
    assert_eq!(challenge.reward_pool, u64::MAX - 1);
    assert_eq!(tcr.claim_reward(&mut token, 3, 1).unwrap_err(), Error::ArithmeticOverflow);
    assert!(!tcr.votes(1, 3).unwrap().claimed);
    assert_eq!(token.balance_of(3), 1);
    assert_eq!(token.locked_deposits(hash), half);
}

#[test]
fn claim_refusals() {
    let (mut token, mut tcr) = challenged();
    tcr.vote(&mut token, 3, 1, true, 50, 6).unwrap();
    assert_eq!(tcr.claim_reward(&mut token, 3, 9).unwrap_err(), Error::NotFound);
    assert_eq!(tcr.claim_reward(&mut token, 3, 1).unwrap_err(), Error::NotResolved);
    tcr.resolve(&mut token, 0, 15).unwrap();
    assert_eq!(tcr.claim_reward(&mut token, 1, 1).unwrap_err(), Error::NotFound);
    assert_eq!(tcr.claim_reward(&mut token, 2, 1).unwrap_err(), Error::NotFound);
    assert!(!tcr.votes(1, 3).unwrap().claimed);
    assert!(tcr.claim_reward(&mut token, 3, 1).is_ok());
    assert_eq!(tcr.claim_reward(&mut token, 3, 1).unwrap_err(), Error::AlreadyClaimed);
}

#[test]
fn claim_is_refused_where_the_escrow_is_short() {
    let (mut token, mut tcr) = challenged();
    tcr.vote(&mut token, 3, 1, true, 50, 6).unwrap();
    tcr.resolve(&mut token, 0, 15).unwrap();
    let hash = tcr.index_hash(0).unwrap();
    token.unlock(9, 200, hash).unwrap();
    assert_eq!(token.locked_deposits(hash), 52);
    assert_eq!(tcr.claim_reward(&mut token, 3, 1).unwrap_err(), Error::ArithmeticUnderflow);
    assert!(!tcr.votes(1, 3).unwrap().claimed);
    assert_eq!(token.balance_of(3), 150);
}

#[test]
fn every_refusal_has_its_words() {
    assert_eq!(Error::InputTooLarge.message(), "listing data cannot be more than 256 bytes");
    assert_eq!(Error::AlreadyExists.message(), "Listing already exists");
    assert_eq!(Error::AlreadyInitialized.message(), "Token already initialized.");
    assert_eq!(Error::AlreadyChallenged.message(), "Listing is already challenged.");
    assert_eq!(Error::InsufficientBalance.message(), "Not enough balance.");
    assert_eq!(Error::UnknownAccount.message(), "Account does not own this token");
    assert_eq!(Error::AlreadyResolved.message(), "Challenge is already resolved.");
    assert_eq!(Error::NotResolved.message(), "Challenge is not resolved.");
    assert_eq!(Error::AlreadyClaimed.message(), "Vote reward has already been claimed.");
    assert_ne!(Error::WindowClosed.message(), Error::WindowNotYetClosed.message());
    assert_ne!(Error::ArithmeticOverflow.message(), Error::ArithmeticUnderflow.message());
}

#[test]
fn challenge_numbers_start_at_one_or_above() {
    let zero = Tcr::new(GenesisConfig {
        owner: 1,
        min_deposit: Some(100),
        apply_stage_len: Some(10),
        commit_stage_len: Some(10),
        poll_nonce: 0,
    });
    assert!(zero.is_none());
    let seven = Tcr::new(GenesisConfig {
        owner: 1,
        min_deposit: None,
        apply_stage_len: None,
        commit_stage_len: None,
        poll_nonce: 7,
    })
    .unwrap();
    assert_eq!(seven.poll_nonce(), 7);
    assert_eq!(seven.listing_count(), 0);
    assert_eq!(seven.owner(), 1);
    assert_eq!(seven.min_deposit(), None);
}
