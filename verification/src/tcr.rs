//! The registry: listings, the challenges against them, the polls that
//! decide the challenges, and the votes cast in the polls.

use vstd::prelude::*;
use crate::error::Error;
use crate::hashing::{blake2_256, hash_of, ListingHash};
use crate::laws::{lemma_genesis_coherent, lemma_step_coherent, step, Call};
use crate::table::Table;
use crate::token::{AccountId, Ledger, TokenBalance};

verus! {

/// A point in time, or a span of it, as the clock counts.
pub type Moment = u64;

/// The longest listing data that `propose` accepts, in bytes.
pub const MAX_DATA_LEN: usize = 256;

/// An entry of the registry.
#[derive(Debug)]
pub struct Listing {
    /// The listing's number: listings are numbered from 0 as they come.
    pub id: u32,
    /// What is listed.
    pub data: Vec<u8>,
    /// The stake behind the listing.
    pub deposit: TokenBalance,
    /// Who proposed it.
    pub owner: AccountId,
    /// When the apply stage ends.
    pub application_expiry: Moment,
    /// Whether the listing is accepted.
    pub whitelisted: bool,
    /// The open challenge; 0 where there is none.
    pub challenge_id: u32,
}

/// A listing as a mathematical value.
pub struct ListingView {
    pub id: u32,
    pub data: Seq<u8>,
    pub deposit: TokenBalance,
    pub owner: AccountId,
    pub application_expiry: Moment,
    pub whitelisted: bool,
    pub challenge_id: u32,
}

impl View for Listing {
    type V = ListingView;

    open spec fn view(&self) -> ListingView {
        ListingView {
            id: self.id,
            data: self.data@,
            deposit: self.deposit,
            owner: self.owner,
            application_expiry: self.application_expiry,
            whitelisted: self.whitelisted,
            challenge_id: self.challenge_id,
        }
    }
}

/// A dispute against a listing.
#[derive(Clone, Copy, Debug)]
pub struct Challenge {
    /// The listing in dispute.
    pub listing_hash: ListingHash,
    /// The challenger's stake.
    pub deposit: TokenBalance,
    /// The challenger.
    pub owner: AccountId,
    /// When the commit stage ends.
    pub voting_ends: Moment,
    /// Whether the poll has been counted.
    pub resolved: bool,
    /// What the winning voters share; set when the challenge is resolved.
    pub reward_pool: TokenBalance,
    /// The winning side's tally; set when the challenge is resolved.
    pub total_tokens: TokenBalance,
}

/// The tally of a challenge, filed under the challenge's number.
#[derive(Clone, Copy, Debug)]
pub struct Poll {
    /// The listing in dispute.
    pub listing_hash: ListingHash,
    /// The stake for keeping the listing, the listing's own deposit included.
    pub votes_for: TokenBalance,
    /// The stake for removing it, the challenger's deposit included.
    pub votes_against: TokenBalance,
    /// Whether the listing was kept; set when the challenge is resolved.
    pub passed: bool,
}

/// The vote of one account in one poll.
#[derive(Clone, Copy, Debug, PartialEq, Eq, Structural)]
pub struct Vote {
    /// For keeping the listing, or against.
    pub value: bool,
    /// The stake behind the vote.
    pub deposit: TokenBalance,
    /// Whether the reward has been claimed.
    pub claimed: bool,
}

/// What the registry reports of a successful call.
#[derive(Clone, Copy, Debug)]
pub enum Event {
    /// A listing was proposed: proposer, listing hash, deposit.
    Proposed(AccountId, ListingHash, TokenBalance),
    /// A listing was challenged: challenger, listing hash, challenge, deposit.
    Challenged(AccountId, ListingHash, u32, TokenBalance),
    /// A vote was cast: voter, challenge, deposit.
    Voted(AccountId, u32, TokenBalance),
    /// A challenge was resolved: listing hash, challenge.
    Resolved(ListingHash, u32),
    /// A listing was accepted.
    Accepted(ListingHash),
    /// A listing was rejected.
    Rejected(ListingHash),
    /// A winning voter was paid: voter, challenge.
    Claimed(AccountId, u32),
}

/// What the registry starts from.
pub struct GenesisConfig {
    /// Who may initialize the registry.
    pub owner: AccountId,
    /// The least deposit behind a listing.
    pub min_deposit: Option<TokenBalance>,
    /// How long a listing can be challenged.
    pub apply_stage_len: Option<Moment>,
    /// How long a challenge can be voted on.
    pub commit_stage_len: Option<Moment>,
    /// The number of the first challenge.
    pub poll_nonce: u32,
}

/// The registry as a mathematical value.
pub struct Registry {
    /// Who may initialize the registry.
    pub owner: AccountId,
    /// Who may change the parameters.
    pub admins: Set<AccountId>,
    /// The least deposit behind a listing.
    pub min_deposit: Option<TokenBalance>,
    /// How long a listing can be challenged.
    pub apply_stage_len: Option<Moment>,
    /// How long a challenge can be voted on.
    pub commit_stage_len: Option<Moment>,
    /// The listings, by the hash of their data.
    pub listings: Map<ListingHash, ListingView>,
    /// How many listings there are; the number of the next one.
    pub listing_count: u32,
    /// The hash of each listing, by the listing's number.
    pub index_hash: Map<u32, ListingHash>,
    /// The number of the next challenge.
    pub poll_nonce: u32,
    /// The challenges, by number.
    pub challenges: Map<u32, Challenge>,
    /// The polls, by the number of their challenge.
    pub polls: Map<u32, Poll>,
    /// The votes, by challenge and voter.
    pub votes: Map<(u32, AccountId), Vote>,
}

/// What a successful call leaves behind: the registry, the ledger, and the
/// events in the order in which they are reported.
pub struct Outcome {
    pub registry: Registry,
    pub ledger: Ledger,
    pub events: Seq<Event>,
}

/// The reward of a winning vote: the whole tokens of reward pool per token
/// of the winning tally, times the vote's deposit.
pub open spec fn reward(challenge: Challenge, vote: Vote) -> int {
    (challenge.reward_pool / challenge.total_tokens) * vote.deposit
}

impl Registry {
    /// The registry before anything happened.
    pub open spec fn genesis(config: GenesisConfig) -> Registry {
        Registry {
            owner: config.owner,
            admins: Set::empty(),
            min_deposit: config.min_deposit,
            apply_stage_len: config.apply_stage_len,
            commit_stage_len: config.commit_stage_len,
            listings: Map::empty(),
            listing_count: 0,
            index_hash: Map::empty(),
            poll_nonce: config.poll_nonce,
            challenges: Map::empty(),
            polls: Map::empty(),
            votes: Map::empty(),
        }
    }

    /// The owner mints the token and becomes the first admin.
    pub open spec fn init(self, ledger: Ledger, sender: AccountId) -> Result<Outcome, Error> {
        if sender != self.owner {
            Err(Error::Unauthorized)
        } else {
            match ledger.init(sender) {
                Err(e) => Err(e),
                Ok(minted) => Ok(
                    Outcome {
                        registry: Registry { admins: self.admins.insert(sender), ..self },
                        ledger: minted,
                        events: Seq::empty(),
                    },
                ),
            }
        }
    }

    /// An admin sets the three parameters.
    pub open spec fn set_config(
        self,
        sender: AccountId,
        min_deposit: TokenBalance,
        apply_stage_len: Moment,
        commit_stage_len: Moment,
    ) -> Result<Registry, Error> {
        if !self.admins.contains(sender) {
            Err(Error::Unauthorized)
        } else {
            Ok(
                Registry {
                    min_deposit: Some(min_deposit),
                    apply_stage_len: Some(apply_stage_len),
                    commit_stage_len: Some(commit_stage_len),
                    ..self
                },
            )
        }
    }

    /// An admin makes `new_admin` an admin.
    pub open spec fn add_admin(self, sender: AccountId, new_admin: AccountId) -> Result<
        Registry,
        Error,
    > {
        if !self.admins.contains(sender) {
            Err(Error::Unauthorized)
        } else {
            Ok(Registry { admins: self.admins.insert(new_admin), ..self })
        }
    }

    /// An admin strikes `admin_to_remove` from the admins.
    pub open spec fn remove_admin(self, sender: AccountId, admin_to_remove: AccountId) -> Result<
        Registry,
        Error,
    > {
        if !self.admins.contains(sender) {
            Err(Error::Unauthorized)
        } else if !self.admins.contains(admin_to_remove) {
            Err(Error::NotFound)
        } else {
            Ok(Registry { admins: self.admins.remove(admin_to_remove), ..self })
        }
    }

    /// `sender` proposes `data`, filed under `hashed`, and stakes `deposit`
    /// on it at time `now`.
    pub open spec fn propose(
        self,
        ledger: Ledger,
        sender: AccountId,
        data: Seq<u8>,
        hashed: ListingHash,
        deposit: TokenBalance,
        now: Moment,
    ) -> Result<Outcome, Error> {
        if data.len() > MAX_DATA_LEN {
            Err(Error::InputTooLarge)
        } else if self.min_deposit is None {
            Err(Error::ConfigurationMissing)
        } else if deposit < self.min_deposit->0 {
            Err(Error::InsufficientDeposit)
        } else if self.apply_stage_len is None {
            Err(Error::ConfigurationMissing)
        } else if now + self.apply_stage_len->0 > u64::MAX {
            Err(Error::ArithmeticOverflow)
        } else if self.listings.contains_key(hashed) {
            Err(Error::AlreadyExists)
        } else {
            match ledger.lock(sender, deposit, hashed) {
                Err(e) => Err(e),
                Ok(locked) => if self.listing_count == u32::MAX {
                    Err(Error::ArithmeticOverflow)
                } else {
                    Ok(
                        Outcome {
                            registry: Registry {
                                listings: self.listings.insert(
                                    hashed,
                                    ListingView {
                                        id: self.listing_count,
                                        data,
                                        deposit,
                                        owner: sender,
                                        application_expiry: (now + self.apply_stage_len->0) as u64,
                                        whitelisted: false,
                                        challenge_id: 0,
                                    },
                                ),
                                listing_count: (self.listing_count + 1) as u32,
                                index_hash: self.index_hash.insert(self.listing_count, hashed),
                                ..self
                            },
                            ledger: locked,
                            events: seq![Event::Proposed(sender, hashed, deposit)],
                        },
                    )
                },
            }
        }
    }
}

impl Registry {
    /// `sender` challenges listing number `listing_id` and stakes `deposit`
    /// against it at time `now`.
    pub open spec fn challenge(
        self,
        ledger: Ledger,
        sender: AccountId,
        listing_id: u32,
        deposit: TokenBalance,
        now: Moment,
    ) -> Result<Outcome, Error> {
        if !self.index_hash.contains_key(listing_id) {
            Err(Error::NotFound)
        } else if !self.listings.contains_key(self.index_hash[listing_id]) {
            Err(Error::NotFound)
        } else {
            let listing_hash = self.index_hash[listing_id];
            let listing = self.listings[listing_hash];
            if listing.challenge_id != 0 {
                Err(Error::AlreadyChallenged)
            } else if listing.owner == sender {
                Err(Error::SelfChallenge)
            } else if deposit < listing.deposit {
                Err(Error::InsufficientDeposit)
            } else if self.commit_stage_len is None {
                Err(Error::ConfigurationMissing)
            } else if now + self.commit_stage_len->0 > u64::MAX {
                Err(Error::ArithmeticOverflow)
            } else if now >= listing.application_expiry {
                Err(Error::WindowClosed)
            } else {
                match ledger.lock(sender, deposit, listing_hash) {
                    Err(e) => Err(e),
                    Ok(locked) => if self.poll_nonce == u32::MAX {
                        Err(Error::ArithmeticOverflow)
                    } else {
                        Ok(
                            Outcome {
                                registry: Registry {
                                    challenges: self.challenges.insert(
                                        self.poll_nonce,
                                        Challenge {
                                            listing_hash,
                                            deposit,
                                            owner: sender,
                                            voting_ends: (now + self.commit_stage_len->0) as u64,
                                            resolved: false,
                                            reward_pool: 0,
                                            total_tokens: 0,
                                        },
                                    ),
                                    polls: self.polls.insert(
                                        self.poll_nonce,
                                        Poll {
                                            listing_hash,
                                            votes_for: listing.deposit,
                                            votes_against: deposit,
                                            passed: false,
                                        },
                                    ),
                                    listings: self.listings.insert(
                                        listing_hash,
                                        ListingView { challenge_id: self.poll_nonce, ..listing },
                                    ),
                                    poll_nonce: (self.poll_nonce + 1) as u32,
                                    ..self
                                },
                                ledger: locked,
                                events: seq![
                                    Event::Challenged(sender, listing_hash, self.poll_nonce, deposit),
                                ],
                            },
                        )
                    },
                }
            }
        }
    }

    /// `sender` votes `value` on challenge number `challenge_id` and stakes
    /// `deposit` on the vote at time `now`. The vote is filed in place of an
    /// earlier one of `sender` on the challenge; the earlier stake stays in
    /// the tally.
    pub open spec fn vote(
        self,
        ledger: Ledger,
        sender: AccountId,
        challenge_id: u32,
        value: bool,
        deposit: TokenBalance,
        now: Moment,
    ) -> Result<Outcome, Error> {
        if !self.challenges.contains_key(challenge_id) {
            Err(Error::NotFound)
        } else if self.challenges[challenge_id].resolved {
            Err(Error::AlreadyResolved)
        } else if now >= self.challenges[challenge_id].voting_ends {
            Err(Error::WindowClosed)
        } else if !self.polls.contains_key(challenge_id) {
            Err(Error::NotFound)
        } else {
            let poll = self.polls[challenge_id];
            match ledger.lock(sender, deposit, self.challenges[challenge_id].listing_hash) {
                Err(e) => Err(e),
                Ok(locked) => if (if value {
                    poll.votes_for
                } else {
                    poll.votes_against
                }) + deposit > u64::MAX {
                    Err(Error::ArithmeticOverflow)
                } else {
                    Ok(
                        Outcome {
                            registry: Registry {
                                polls: self.polls.insert(
                                    challenge_id,
                                    if value {
                                        Poll { votes_for: (poll.votes_for + deposit) as u64, ..poll }
                                    } else {
                                        Poll {
                                            votes_against: (poll.votes_against + deposit) as u64,
                                            ..poll
                                        }
                                    },
                                ),
                                votes: self.votes.insert(
                                    (challenge_id, sender),
                                    Vote { value, deposit, claimed: false },
                                ),
                                ..self
                            },
                            ledger: locked,
                            events: seq![Event::Voted(sender, challenge_id, deposit)],
                        },
                    )
                },
            }
        }
    }

    /// Listing number `listing_id` is resolved at time `now`: accepted
    /// where it stands unchallenged past its apply stage; where it is
    /// challenged, kept or rejected by the poll past the commit stage.
    pub open spec fn resolve(self, ledger: Ledger, listing_id: u32, now: Moment) -> Result<
        Outcome,
        Error,
    > {
        if !self.index_hash.contains_key(listing_id) {
            Err(Error::NotFound)
        } else if !self.listings.contains_key(self.index_hash[listing_id]) {
            Err(Error::NotFound)
        } else {
            let listing_hash = self.index_hash[listing_id];
            let listing = self.listings[listing_hash];
            if listing.challenge_id == 0 {
                if now < listing.application_expiry {
                    Err(Error::WindowNotYetClosed)
                } else {
                    Ok(
                        Outcome {
                            registry: Registry {
                                listings: self.listings.insert(
                                    listing_hash,
                                    ListingView { whitelisted: true, ..listing },
                                ),
                                ..self
                            },
                            ledger,
                            events: seq![Event::Accepted(listing_hash)],
                        },
                    )
                }
            } else if !self.challenges.contains_key(listing.challenge_id)
                || !self.polls.contains_key(listing.challenge_id) {
                Err(Error::NotFound)
            } else {
                let challenge = self.challenges[listing.challenge_id];
                let poll = self.polls[listing.challenge_id];
                if now < challenge.voting_ends {
                    Err(Error::WindowNotYetClosed)
                } else if poll.votes_for >= poll.votes_against {
                    if challenge.deposit + poll.votes_against > u64::MAX {
                        Err(Error::ArithmeticOverflow)
                    } else {
                        Ok(
                            Outcome {
                                registry: self.resolved(
                                    listing_hash,
                                    true,
                                    poll.votes_for,
                                    (challenge.deposit + poll.votes_against) as u64,
                                ),
                                ledger,
                                events: seq![
                                    Event::Accepted(listing_hash),
                                    Event::Resolved(listing_hash, listing.challenge_id),
                                ],
                            },
                        )
                    }
                } else if listing.deposit + poll.votes_for > u64::MAX {
                    Err(Error::ArithmeticOverflow)
                } else {
                    match ledger.unlock(challenge.owner, challenge.deposit, listing_hash) {
                        Err(e) => Err(e),
                        Ok(unlocked) => Ok(
                            Outcome {
                                registry: self.resolved(
                                    listing_hash,
                                    false,
                                    poll.votes_against,
                                    (listing.deposit + poll.votes_for) as u64,
                                ),
                                ledger: unlocked,
                                events: seq![
                                    Event::Rejected(listing_hash),
                                    Event::Resolved(listing_hash, listing.challenge_id),
                                ],
                            },
                        ),
                    }
                }
            }
        }
    }

    /// The registry once the open challenge of the listing under
    /// `listing_hash` is counted: the poll says whether it `passed`, the
    /// listing is whitelisted accordingly and free of its challenge, and the
    /// challenge is resolved with its winning tally and reward pool.
    pub open spec fn resolved(
        self,
        listing_hash: ListingHash,
        passed: bool,
        total_tokens: TokenBalance,
        reward_pool: TokenBalance,
    ) -> Registry {
        let listing = self.listings[listing_hash];
        let challenge_id = listing.challenge_id;
        Registry {
            polls: self.polls.insert(challenge_id, Poll { passed, ..self.polls[challenge_id] }),
            listings: self.listings.insert(
                listing_hash,
                ListingView { whitelisted: passed, challenge_id: 0, ..listing },
            ),
            challenges: self.challenges.insert(
                challenge_id,
                Challenge {
                    resolved: true,
                    total_tokens,
                    reward_pool,
                    ..self.challenges[challenge_id]
                },
            ),
            ..self
        }
    }

    /// `sender` claims what its vote on challenge number `challenge_id`
    /// earned: on the winning side the reward and the vote's deposit, on the
    /// losing side nothing. Either way the vote is marked as claimed.
    pub open spec fn claim_reward(self, ledger: Ledger, sender: AccountId, challenge_id: u32) -> Result<
        Outcome,
        Error,
    > {
        if !self.challenges.contains_key(challenge_id) {
            Err(Error::NotFound)
        } else if !self.challenges[challenge_id].resolved {
            Err(Error::NotResolved)
        } else if !self.polls.contains_key(challenge_id) || !self.votes.contains_key(
            (challenge_id, sender),
        ) {
            Err(Error::NotFound)
        } else {
            let challenge = self.challenges[challenge_id];
            let vote = self.votes[(challenge_id, sender)];
            let claimed = Registry {
                votes: self.votes.insert((challenge_id, sender), Vote { claimed: true, ..vote }),
                ..self
            };
            if vote.claimed {
                Err(Error::AlreadyClaimed)
            } else if self.polls[challenge_id].passed != vote.value {
                Ok(Outcome { registry: claimed, ledger, events: Seq::empty() })
            } else if challenge.total_tokens == 0 || reward(challenge, vote) + vote.deposit
                > u64::MAX {
                Err(Error::ArithmeticOverflow)
            } else {
                match ledger.unlock(
                    sender,
                    (reward(challenge, vote) + vote.deposit) as u64,
                    challenge.listing_hash,
                ) {
                    Err(e) => Err(e),
                    Ok(unlocked) => Ok(
                        Outcome {
                            registry: claimed,
                            ledger: unlocked,
                            events: seq![Event::Claimed(sender, challenge_id)],
                        },
                    ),
                }
            }
        }
    }
}

/// What a proposal must meet: `r`, the answer to a proposal of `data` with
/// `deposit`, is a success only where the data is no longer than
/// `MAX_DATA_LEN` and the deposit is at least the least deposit; data that
/// is too long is refused with `InputTooLarge`, and data that is not, with a
/// deposit below the least deposit, with `InsufficientDeposit`.
pub open spec fn admits(
    registry: Registry,
    data: Seq<u8>,
    deposit: TokenBalance,
    r: Result<Vec<Event>, Error>,
) -> bool {
    &&& r is Ok ==> data.len() <= MAX_DATA_LEN && registry.min_deposit is Some && deposit
        >= registry.min_deposit->0
    &&& data.len() > MAX_DATA_LEN ==> r == Err::<Vec<Event>, Error>(Error::InputTooLarge)
    &&& data.len() <= MAX_DATA_LEN && registry.min_deposit is Some && deposit
        < registry.min_deposit->0 ==> r == Err::<Vec<Event>, Error>(Error::InsufficientDeposit)
}

/// The registry.
pub struct Module {
    owner: AccountId,
    admins: Table<AccountId, ()>,
    min_deposit: Option<TokenBalance>,
    apply_stage_len: Option<Moment>,
    commit_stage_len: Option<Moment>,
    listings: Table<ListingHash, Listing>,
    listing_count: u32,
    index_hash: Table<u32, ListingHash>,
    poll_nonce: u32,
    challenges: Table<u32, Challenge>,
    polls: Table<u32, Poll>,
    votes: Table<(u32, AccountId), Vote>,
}

/// The listings of a table, each as a mathematical value.
pub open spec fn listing_views(listings: Map<ListingHash, Listing>) -> Map<ListingHash, ListingView> {
    listings.map_values(|l: Listing| l@)
}

impl View for Module {
    type V = Registry;

    closed spec fn view(&self) -> Registry {
        Registry {
            owner: self.owner,
            admins: self.admins@.dom(),
            min_deposit: self.min_deposit,
            apply_stage_len: self.apply_stage_len,
            commit_stage_len: self.commit_stage_len,
            listings: listing_views(self.listings@),
            listing_count: self.listing_count,
            index_hash: self.index_hash@,
            poll_nonce: self.poll_nonce,
            challenges: self.challenges@,
            polls: self.polls@,
            votes: self.votes@,
        }
    }
}

impl Module {
    /// A registry that holds nothing yet. Challenge number 0 stands for "no
    /// challenge" in a listing, so the numbers must start at 1 or above:
    /// there is no registry for a genesis whose first number is 0.
    pub fn new(config: GenesisConfig) -> (made: Option<Self>)
        ensures
            made is Some <==> config.poll_nonce >= 1,
            made matches Some(registry) ==> registry@ == Registry::genesis(config)
                && registry@.coherent() && registry@.tallies_exact(),
    {
        if config.poll_nonce == 0 {
            return None;
        }
        let registry = Module {
            owner: config.owner,
            admins: Table::new(),
            min_deposit: config.min_deposit,
            apply_stage_len: config.apply_stage_len,
            commit_stage_len: config.commit_stage_len,
            listings: Table::new(),
            listing_count: 0,
            index_hash: Table::new(),
            poll_nonce: config.poll_nonce,
            challenges: Table::new(),
            polls: Table::new(),
            votes: Table::new(),
        };
        proof {
            assert(registry@.admins =~= Set::<AccountId>::empty());
            assert(registry@.listings =~= Map::<ListingHash, ListingView>::empty());
            lemma_genesis_coherent(config);
        }
        Some(registry)
    }

    /// Who may initialize the registry.
    pub fn owner(&self) -> (r: AccountId)
        ensures
            r == self@.owner,
    {
        self.owner
    }

    /// Whether `who` is an admin.
    pub fn admins(&self, who: AccountId) -> (r: bool)
        ensures
            r == self@.admins.contains(who),
    {
        self.admins.contains_key(&who)
    }

    /// The least deposit behind a listing, once set.
    pub fn min_deposit(&self) -> (r: Option<TokenBalance>)
        ensures
            r == self@.min_deposit,
    {
        self.min_deposit
    }

    /// How long a listing can be challenged, once set.
    pub fn apply_stage_len(&self) -> (r: Option<Moment>)
        ensures
            r == self@.apply_stage_len,
    {
        self.apply_stage_len
    }

    /// How long a challenge can be voted on, once set.
    pub fn commit_stage_len(&self) -> (r: Option<Moment>)
        ensures
            r == self@.commit_stage_len,
    {
        self.commit_stage_len
    }

    /// The listing filed under `listing_hash`.
    pub fn listings(&self, listing_hash: ListingHash) -> (r: Option<&Listing>)
        ensures
            match r {
                Some(listing) => self@.listings.contains_key(listing_hash) && listing@
                    == self@.listings[listing_hash],
                None => !self@.listings.contains_key(listing_hash),
            },
    {
        self.listings.get(&listing_hash)
    }

    /// How many listings there are.
    pub fn listing_count(&self) -> (r: u32)
        ensures
            r == self@.listing_count,
    {
        self.listing_count
    }

    /// The hash of listing number `listing_id`.
    pub fn index_hash(&self, listing_id: u32) -> (r: Option<ListingHash>)
        ensures
            r == (if self@.index_hash.contains_key(listing_id) {
                Some(self@.index_hash[listing_id])
            } else {
                None
            }),
    {
        match self.index_hash.get(&listing_id) {
            Some(h) => Some(*h),
            None => None,
        }
    }

    /// The number of the next challenge.
    pub fn poll_nonce(&self) -> (r: u32)
        ensures
            r == self@.poll_nonce,
    {
        self.poll_nonce
    }

    /// Challenge number `challenge_id`.
    pub fn challenges(&self, challenge_id: u32) -> (r: Option<Challenge>)
        ensures
            r == (if self@.challenges.contains_key(challenge_id) {
                Some(self@.challenges[challenge_id])
            } else {
                None
            }),
    {
        match self.challenges.get(&challenge_id) {
            Some(c) => Some(*c),
            None => None,
        }
    }

    /// The poll of challenge number `challenge_id`.
    pub fn polls(&self, challenge_id: u32) -> (r: Option<Poll>)
        ensures
            r == (if self@.polls.contains_key(challenge_id) {
                Some(self@.polls[challenge_id])
            } else {
                None
            }),
    {
        match self.polls.get(&challenge_id) {
            Some(p) => Some(*p),
            None => None,
        }
    }

    /// The vote of `voter` on challenge number `challenge_id`.
    pub fn votes(&self, challenge_id: u32, voter: AccountId) -> (r: Option<Vote>)
        ensures
            r == (if self@.votes.contains_key((challenge_id, voter)) {
                Some(self@.votes[(challenge_id, voter)])
            } else {
                None
            }),
    {
        match self.votes.get(&(challenge_id, voter)) {
            Some(v) => Some(*v),
            None => None,
        }
    }

    /// Refuses whoever is not an admin.
    fn ensure_admin(&self, sender: AccountId) -> (r: Result<(), Error>)
        ensures
            r == (if self@.admins.contains(sender) {
                Ok::<(), Error>(())
            } else {
                Err::<(), Error>(Error::Unauthorized)
            }),
    {
        if self.admins.contains_key(&sender) {
            Ok(())
        } else {
            Err(Error::Unauthorized)
        }
    }

    /// The owner mints the token's supply to itself and becomes an admin.
    ///
    /// Refused with `Unauthorized` where `sender` is not the owner, and with
    /// `AlreadyInitialized` from the second call on.
    pub fn init(&mut self, token: &mut crate::token::Module, sender: AccountId) -> (r: Result<
        (),
        Error,
    >)
        ensures
            match r {
                Ok(_) => old(self)@.init(old(token)@, sender) == Ok::<Outcome, Error>(
                    Outcome { registry: final(self)@, ledger: final(token)@, events: Seq::empty() },
                ),
                Err(e) => old(self)@.init(old(token)@, sender) == Err::<Outcome, Error>(e)
                    && final(self)@ == old(self)@ && final(token)@ == old(token)@,
            },
            old(self)@.coherent() ==> final(self)@.coherent(),
    {
        if sender != self.owner {
            return Err(Error::Unauthorized);
        }
        match token.init(sender) {
            Err(e) => { return Err(e); },
            Ok(_) => {},
        }
        self.admins.insert(sender, ());
        assert(self@.admins =~= old(self)@.admins.insert(sender));
        proof {
            assert(old(self)@.init(old(token)@, sender) == Ok::<Outcome, Error>(
                Outcome { registry: self@, ledger: token@, events: Seq::empty() },
            ));
            if old(self)@.coherent() {
                lemma_step_coherent(old(self)@, old(token)@, sender, 0, Call::Init);
            }
        }
        Ok(())
    }

    /// Sets the three parameters, in place of what they were.
    ///
    /// Refused with `Unauthorized` where `sender` is not an admin.
    pub fn set_config(
        &mut self,
        sender: AccountId,
        min_deposit: TokenBalance,
        apply_stage_len: Moment,
        commit_stage_len: Moment,
    ) -> (r: Result<(), Error>)
        ensures
            match r {
                Ok(_) => old(self)@.set_config(sender, min_deposit, apply_stage_len, commit_stage_len)
                    == Ok::<Registry, Error>(final(self)@),
                Err(e) => old(self)@.set_config(sender, min_deposit, apply_stage_len, commit_stage_len)
                    == Err::<Registry, Error>(e) && final(self)@ == old(self)@,
            },
            old(self)@.coherent() ==> final(self)@.coherent(),
    {
        match self.ensure_admin(sender) {
            Err(e) => { return Err(e); },
            Ok(_) => {},
        }
        self.min_deposit = Some(min_deposit);
        self.apply_stage_len = Some(apply_stage_len);
        self.commit_stage_len = Some(commit_stage_len);
        proof {
            if old(self)@.coherent() {
                lemma_step_coherent(old(self)@, Ledger::genesis(0), sender, 0, Call::SetConfig { min_deposit, apply_stage_len, commit_stage_len });
            }
        }
        Ok(())
    }

    /// Makes `new_admin` an admin.
    ///
    /// Refused with `Unauthorized` where `sender` is not an admin.
    pub fn add_admin(&mut self, sender: AccountId, new_admin: AccountId) -> (r: Result<(), Error>)
        ensures
            match r {
                Ok(_) => old(self)@.add_admin(sender, new_admin) == Ok::<Registry, Error>(
                    final(self)@,
                ),
                Err(e) => old(self)@.add_admin(sender, new_admin) == Err::<Registry, Error>(e)
                    && final(self)@ == old(self)@,
            },
            old(self)@.coherent() ==> final(self)@.coherent(),
    {
        match self.ensure_admin(sender) {
            Err(e) => { return Err(e); },
            Ok(_) => {},
        }
        self.admins.insert(new_admin, ());
        assert(self@.admins =~= old(self)@.admins.insert(new_admin));
        proof {
            if old(self)@.coherent() {
                lemma_step_coherent(old(self)@, Ledger::genesis(0), sender, 0, Call::AddAdmin { new_admin });
            }
        }
        Ok(())
    }

    /// Strikes `admin_to_remove` from the admins.
    ///
    /// Refused with `Unauthorized` where `sender` is not an admin, and with
    /// `NotFound` where `admin_to_remove` is none.
    pub fn remove_admin(&mut self, sender: AccountId, admin_to_remove: AccountId) -> (r: Result<
        (),
        Error,
    >)
        ensures
            match r {
                Ok(_) => old(self)@.remove_admin(sender, admin_to_remove) == Ok::<Registry, Error>(
                    final(self)@,
                ),
                Err(e) => old(self)@.remove_admin(sender, admin_to_remove) == Err::<Registry, Error>(
                    e,
                ) && final(self)@ == old(self)@,
            },
            old(self)@.coherent() ==> final(self)@.coherent(),
    {
        match self.ensure_admin(sender) {
            Err(e) => { return Err(e); },
            Ok(_) => {},
        }
        if !self.admins.contains_key(&admin_to_remove) {
            return Err(Error::NotFound);
        }
        let _ = self.admins.remove(&admin_to_remove);
        assert(self@.admins =~= old(self)@.admins.remove(admin_to_remove));
        proof {
            if old(self)@.coherent() {
                lemma_step_coherent(old(self)@, Ledger::genesis(0), sender, 0, Call::RemoveAdmin { admin_to_remove });
            }
        }
        Ok(())
    }

    /// Files a listing for `data` under `hashed`, with `deposit` locked
    /// behind it, open to challenge until `now` plus the apply stage length;
    /// reports `Proposed`.
    ///
    /// Refused, in this order, with `InputTooLarge` where `data` is longer
    /// than `MAX_DATA_LEN`; `ConfigurationMissing` where the least deposit
    /// is not set; `InsufficientDeposit` where `deposit` is below it;
    /// `ConfigurationMissing` where the apply stage length is not set;
    /// `ArithmeticOverflow` where the expiry does not fit; `AlreadyExists`
    /// where a listing is filed under `hashed`; for the reasons of the
    /// ledger's `lock`; and with `ArithmeticOverflow` where the listing
    /// numbers are used up.
    pub fn propose_hashed(
        &mut self,
        token: &mut crate::token::Module,
        sender: AccountId,
        data: Vec<u8>,
        hashed: ListingHash,
        deposit: TokenBalance,
        now: Moment,
    ) -> (r: Result<Vec<Event>, Error>)
        ensures
            match r {
                Ok(events) => old(self)@.propose(old(token)@, sender, data@, hashed, deposit, now)
                    == Ok::<Outcome, Error>(
                    Outcome { registry: final(self)@, ledger: final(token)@, events: events@ },
                ),
                Err(e) => old(self)@.propose(old(token)@, sender, data@, hashed, deposit, now)
                    == Err::<Outcome, Error>(e) && final(self)@ == old(self)@ && final(token)@
                    == old(token)@,
            },
            old(self)@.coherent() ==> final(self)@.coherent(),
            admits(old(self)@, data@, deposit, r),
    {
        let ghost bytes = data@;
        if data.len() > MAX_DATA_LEN {
            return Err(Error::InputTooLarge);
        }
        let min_deposit = match self.min_deposit {
            Some(m) => m,
            None => { return Err(Error::ConfigurationMissing); },
        };
        if deposit < min_deposit {
            return Err(Error::InsufficientDeposit);
        }
        let apply_stage_len = match self.apply_stage_len {
            Some(l) => l,
            None => { return Err(Error::ConfigurationMissing); },
        };
        let app_exp = match now.checked_add(apply_stage_len) {
            Some(t) => t,
            None => { return Err(Error::ArithmeticOverflow); },
        };
        if self.listings.contains_key(&hashed) {
            return Err(Error::AlreadyExists);
        }
        match token.check_lock(sender, deposit, hashed) {
            Err(e) => { return Err(e); },
            Ok(_) => {},
        }
        let listing_id = self.listing_count;
        if listing_id == u32::MAX {
            return Err(Error::ArithmeticOverflow);
        }
        let locked = token.lock(sender, deposit, hashed);
        assert(locked is Ok);
        let listing = Listing {
            id: listing_id,
            data,
            deposit,
            owner: sender,
            application_expiry: app_exp,
            whitelisted: false,
            challenge_id: 0,
        };
        self.listing_count = listing_id + 1;
        self.listings.insert(hashed, listing);
        self.index_hash.insert(listing_id, hashed);
        let mut events: Vec<Event> = Vec::new();
        events.push(Event::Proposed(sender, hashed, deposit));
        assert(self@.listings =~= old(self)@.listings.insert(hashed, listing@));
        proof {
            assert(old(self)@.propose(old(token)@, sender, bytes, hashed, deposit, now) == Ok::<Outcome, Error>(
                Outcome { registry: self@, ledger: token@, events: events@ },
            ));
            if old(self)@.coherent() {
                lemma_step_coherent(old(self)@, old(token)@, sender, now, Call::Propose { data: bytes, hashed, deposit });
            }
        }
        Ok(events)
    }

    /// Files a listing for `data` under its BLAKE2b-256 hash: `propose_hashed`
    /// with that hash.
    pub fn propose(
        &mut self,
        token: &mut crate::token::Module,
        sender: AccountId,
        data: Vec<u8>,
        deposit: TokenBalance,
        now: Moment,
    ) -> (r: Result<Vec<Event>, Error>)
        ensures
            match r {
                Ok(events) => old(self)@.propose(
                    old(token)@,
                    sender,
                    data@,
                    blake2_256(data@),
                    deposit,
                    now,
                ) == Ok::<Outcome, Error>(
                    Outcome { registry: final(self)@, ledger: final(token)@, events: events@ },
                ),
                Err(e) => old(self)@.propose(
                    old(token)@,
                    sender,
                    data@,
                    blake2_256(data@),
                    deposit,
                    now,
                ) == Err::<Outcome, Error>(e) && final(self)@ == old(self)@ && final(token)@ == old(
                    token,
                )@,
            },
            old(self)@.coherent() ==> final(self)@.coherent(),
            admits(old(self)@, data@, deposit, r),
    {
        if data.len() > MAX_DATA_LEN {
            return Err(Error::InputTooLarge);
        }
        let hashed = hash_of(&data);
        self.propose_hashed(token, sender, data, hashed, deposit, now)
    }

    /// Opens a challenge against listing number `listing_id`, with `deposit`
    /// locked behind it and votes taken until `now` plus the commit stage
    /// length. The poll starts with the listing's deposit for and `deposit`
    /// against. Reports `Challenged` with the challenge's number.
    ///
    /// Refused, in this order, with `NotFound` where there is no such
    /// listing; `AlreadyChallenged` where it has an open challenge;
    /// `SelfChallenge` where `sender` owns it; `InsufficientDeposit` where
    /// `deposit` is below the listing's; `ConfigurationMissing` where the
    /// commit stage length is not set; `ArithmeticOverflow` where the end of
    /// voting does not fit; `WindowClosed` unless `now` is before the
    /// listing's expiry; for the reasons of the ledger's `lock`; and with
    /// `ArithmeticOverflow` where the challenge numbers are used up.
    pub fn challenge(
        &mut self,
        token: &mut crate::token::Module,
        sender: AccountId,
        listing_id: u32,
        deposit: TokenBalance,
        now: Moment,
    ) -> (r: Result<Vec<Event>, Error>)
        ensures
            match r {
                Ok(events) => old(self)@.challenge(old(token)@, sender, listing_id, deposit, now)
                    == Ok::<Outcome, Error>(
                    Outcome { registry: final(self)@, ledger: final(token)@, events: events@ },
                ),
                Err(e) => old(self)@.challenge(old(token)@, sender, listing_id, deposit, now)
                    == Err::<Outcome, Error>(e) && final(self)@ == old(self)@ && final(token)@
                    == old(token)@,
            },
            old(self)@.coherent() ==> final(self)@.coherent(),
    {
        let listing_hash = match self.index_hash.get(&listing_id) {
            Some(h) => *h,
            None => { return Err(Error::NotFound); },
        };
        let (challenge_id, owner, listing_deposit, application_expiry) = match self.listings.get(
            &listing_hash,
        ) {
            Some(l) => (l.challenge_id, l.owner, l.deposit, l.application_expiry),
            None => { return Err(Error::NotFound); },
        };
        if challenge_id != 0 {
            return Err(Error::AlreadyChallenged);
        }
        if owner == sender {
            return Err(Error::SelfChallenge);
        }
        if deposit < listing_deposit {
            return Err(Error::InsufficientDeposit);
        }
        let commit_stage_len = match self.commit_stage_len {
            Some(l) => l,
            None => { return Err(Error::ConfigurationMissing); },
        };
        let voting_exp = match now.checked_add(commit_stage_len) {
            Some(t) => t,
            None => { return Err(Error::ArithmeticOverflow); },
        };
        if now >= application_expiry {
            return Err(Error::WindowClosed);
        }
        match token.check_lock(sender, deposit, listing_hash) {
            Err(e) => { return Err(e); },
            Ok(_) => {},
        }
        let poll_nonce = self.poll_nonce;
        if poll_nonce == u32::MAX {
            return Err(Error::ArithmeticOverflow);
        }
        let locked = token.lock(sender, deposit, listing_hash);
        assert(locked is Ok);
        let challenge = Challenge {
            listing_hash,
            deposit,
            owner: sender,
            voting_ends: voting_exp,
            resolved: false,
            reward_pool: 0,
            total_tokens: 0,
        };
        let poll = Poll {
            listing_hash,
            votes_for: listing_deposit,
            votes_against: deposit,
            passed: false,
        };
        self.challenges.insert(poll_nonce, challenge);
        self.polls.insert(poll_nonce, poll);
        if let Some(mut listing) = self.listings.remove(&listing_hash) {
            listing.challenge_id = poll_nonce;
            self.listings.insert(listing_hash, listing);
        }
        self.poll_nonce = poll_nonce + 1;
        let mut events: Vec<Event> = Vec::new();
        events.push(Event::Challenged(sender, listing_hash, poll_nonce, deposit));
        assert(self@.listings =~= old(self)@.listings.insert(
            listing_hash,
            ListingView { challenge_id: poll_nonce, ..old(self)@.listings[listing_hash] },
        ));
        proof {
            assert(old(self)@.challenge(old(token)@, sender, listing_id, deposit, now) == Ok::<Outcome, Error>(
                Outcome { registry: self@, ledger: token@, events: events@ },
            ));
            if old(self)@.coherent() {
                lemma_step_coherent(old(self)@, old(token)@, sender, now, Call::Challenge { listing_id, deposit });
            }
        }
        Ok(events)
    }

    /// Casts the vote of `sender` on challenge number `challenge_id`, with
    /// `deposit` locked behind it and added to the side that `value` names.
    /// Reports `Voted`.
    ///
    /// Refused, in this order, with `NotFound` where there is no such
    /// challenge; `AlreadyResolved` where it is resolved; `WindowClosed`
    /// unless `now` is before the end of voting; for the reasons of the
    /// ledger's `lock`; and with `ArithmeticOverflow` where the tally would
    /// not fit.
    pub fn vote(
        &mut self,
        token: &mut crate::token::Module,
        sender: AccountId,
        challenge_id: u32,
        value: bool,
        deposit: TokenBalance,
        now: Moment,
    ) -> (r: Result<Vec<Event>, Error>)
        ensures
            match r {
                Ok(events) => old(self)@.vote(old(token)@, sender, challenge_id, value, deposit, now)
                    == Ok::<Outcome, Error>(
                    Outcome { registry: final(self)@, ledger: final(token)@, events: events@ },
                ),
                Err(e) => old(self)@.vote(old(token)@, sender, challenge_id, value, deposit, now)
                    == Err::<Outcome, Error>(e) && final(self)@ == old(self)@ && final(token)@
                    == old(token)@,
            },
            old(self)@.coherent() ==> final(self)@.coherent(),
    {
        let challenge = match self.challenges.get(&challenge_id) {
            Some(c) => *c,
            None => { return Err(Error::NotFound); },
        };
        if challenge.resolved {
            return Err(Error::AlreadyResolved);
        }
        if now >= challenge.voting_ends {
            return Err(Error::WindowClosed);
        }
        let mut poll_instance = match self.polls.get(&challenge_id) {
            Some(p) => *p,
            None => { return Err(Error::NotFound); },
        };
        match token.check_lock(sender, deposit, challenge.listing_hash) {
            Err(e) => { return Err(e); },
            Ok(_) => {},
        }
        if value {
            poll_instance.votes_for = match poll_instance.votes_for.checked_add(deposit) {
                Some(t) => t,
                None => { return Err(Error::ArithmeticOverflow); },
            };
        } else {
            poll_instance.votes_against = match poll_instance.votes_against.checked_add(deposit) {
                Some(t) => t,
                None => { return Err(Error::ArithmeticOverflow); },
            };
        }
        let locked = token.lock(sender, deposit, challenge.listing_hash);
        assert(locked is Ok);
        self.polls.insert(challenge_id, poll_instance);
        self.votes.insert((challenge_id, sender), Vote { value, deposit, claimed: false });
        let mut events: Vec<Event> = Vec::new();
        events.push(Event::Voted(sender, challenge_id, deposit));
        proof {
            assert(old(self)@.vote(old(token)@, sender, challenge_id, value, deposit, now) == Ok::<Outcome, Error>(
                Outcome { registry: self@, ledger: token@, events: events@ },
            ));
            if old(self)@.coherent() {
                lemma_step_coherent(old(self)@, old(token)@, sender, now, Call::Vote { challenge_id, value, deposit });
            }
        }
        Ok(events)
    }

    /// Settles listing number `listing_id`.
    ///
    /// Unchallenged and past its apply stage, the listing is whitelisted;
    /// its deposit stays locked. Reports `Accepted`.
    ///
    /// Challenged and past the commit stage, the poll is counted: the
    /// listing is kept where the votes for it are at least the votes against.
    /// The listing is whitelisted or not accordingly and loses its challenge;
    /// the challenge is resolved, with the winning tally as its total tokens
    /// and the loser's deposit plus the losing tally as its reward pool.
    /// Where the listing is rejected the challenger's deposit is unlocked.
    /// Reports `Accepted` or `Rejected`, then `Resolved`.
    ///
    /// Refused with `NotFound` where there is no such listing;
    /// `WindowNotYetClosed` while the stage lasts; `ArithmeticOverflow` where
    /// the reward pool would not fit; and, where the listing is rejected, for
    /// the reasons of the ledger's `unlock`.
    pub fn resolve(&mut self, token: &mut crate::token::Module, listing_id: u32, now: Moment) -> (r:
        Result<Vec<Event>, Error>)
        ensures
            match r {
                Ok(events) => old(self)@.resolve(old(token)@, listing_id, now) == Ok::<
                    Outcome,
                    Error,
                >(Outcome { registry: final(self)@, ledger: final(token)@, events: events@ }),
                Err(e) => old(self)@.resolve(old(token)@, listing_id, now) == Err::<Outcome, Error>(
                    e,
                ) && final(self)@ == old(self)@ && final(token)@ == old(token)@,
            },
            old(self)@.coherent() ==> final(self)@.coherent(),
    {
        let listing_hash = match self.index_hash.get(&listing_id) {
            Some(h) => *h,
            None => { return Err(Error::NotFound); },
        };
        let (challenge_id, listing_deposit, application_expiry) = match self.listings.get(
            &listing_hash,
        ) {
            Some(l) => (l.challenge_id, l.deposit, l.application_expiry),
            None => { return Err(Error::NotFound); },
        };
        let mut events: Vec<Event> = Vec::new();
        if challenge_id == 0 {
            if now < application_expiry {
                return Err(Error::WindowNotYetClosed);
            }
            if let Some(mut listing) = self.listings.remove(&listing_hash) {
                listing.whitelisted = true;
                self.listings.insert(listing_hash, listing);
            }
            events.push(Event::Accepted(listing_hash));
            assert(self@.listings =~= old(self)@.listings.insert(
                listing_hash,
                ListingView { whitelisted: true, ..old(self)@.listings[listing_hash] },
            ));
            proof {
                assert(old(self)@.resolve(old(token)@, listing_id, now) == Ok::<Outcome, Error>(
                    Outcome { registry: self@, ledger: token@, events: events@ },
                ));
                if old(self)@.coherent() {
                    lemma_step_coherent(old(self)@, old(token)@, 0, now, Call::Resolve { listing_id });
                }
            }
            return Ok(events);
        }
        let mut challenge = match self.challenges.get(&challenge_id) {
            Some(c) => *c,
            None => { return Err(Error::NotFound); },
        };
        let mut poll = match self.polls.get(&challenge_id) {
            Some(p) => *p,
            None => { return Err(Error::NotFound); },
        };
        if now < challenge.voting_ends {
            return Err(Error::WindowNotYetClosed);
        }
        let whitelisted = poll.votes_for >= poll.votes_against;
        if whitelisted {
            challenge.total_tokens = poll.votes_for;
            challenge.reward_pool = match challenge.deposit.checked_add(poll.votes_against) {
                Some(p) => p,
                None => { return Err(Error::ArithmeticOverflow); },
            };
            events.push(Event::Accepted(listing_hash));
        } else {
            challenge.total_tokens = poll.votes_against;
            challenge.reward_pool = match listing_deposit.checked_add(poll.votes_for) {
                Some(p) => p,
                None => { return Err(Error::ArithmeticOverflow); },
            };
            match token.unlock(challenge.owner, challenge.deposit, listing_hash) {
                Err(e) => { return Err(e); },
                Ok(_) => {},
            }
            events.push(Event::Rejected(listing_hash));
        }
        challenge.resolved = true;
        poll.passed = whitelisted;
        self.polls.insert(challenge_id, poll);
        if let Some(mut listing) = self.listings.remove(&listing_hash) {
            listing.whitelisted = whitelisted;
            listing.challenge_id = 0;
            self.listings.insert(listing_hash, listing);
        }
        self.challenges.insert(challenge_id, challenge);
        events.push(Event::Resolved(listing_hash, challenge_id));
        assert(events@ =~= seq![
            if whitelisted {
                Event::Accepted(listing_hash)
            } else {
                Event::Rejected(listing_hash)
            },
            Event::Resolved(listing_hash, challenge_id),
        ]);
        assert(self@.listings =~= old(self)@.listings.insert(
            listing_hash,
            ListingView {
                whitelisted,
                challenge_id: 0,
                ..old(self)@.listings[listing_hash]
            },
        ));
        proof {
            assert(old(self)@.resolve(old(token)@, listing_id, now) == Ok::<Outcome, Error>(
                Outcome { registry: self@, ledger: token@, events: events@ },
            ));
            if old(self)@.coherent() {
                lemma_step_coherent(old(self)@, old(token)@, 0, now, Call::Resolve { listing_id });
            }
        }
        Ok(events)
    }

    /// Pays `sender` for its vote on challenge number `challenge_id` and
    /// marks the vote as claimed. A vote on the winning side is paid its
    /// reward and its deposit out of the listing's escrow, and `Claimed` is
    /// reported; a vote on the losing side is paid nothing and nothing is
    /// reported.
    ///
    /// Refused, in this order, with `NotFound` where there is no such
    /// challenge; `NotResolved` where it is not resolved; `NotFound` where
    /// `sender` has no vote on it; `AlreadyClaimed` where the vote is
    /// claimed; and, for a winning vote, with `ArithmeticOverflow` where the
    /// winning tally is zero or the payment does not fit, and for the reasons
    /// of the ledger's `unlock`.
    pub fn claim_reward(&mut self, token: &mut crate::token::Module, sender: AccountId, challenge_id: u32) -> (r:
        Result<Vec<Event>, Error>)
        ensures
            match r {
                Ok(events) => old(self)@.claim_reward(old(token)@, sender, challenge_id) == Ok::<
                    Outcome,
                    Error,
                >(Outcome { registry: final(self)@, ledger: final(token)@, events: events@ }),
                Err(e) => old(self)@.claim_reward(old(token)@, sender, challenge_id) == Err::<
                    Outcome,
                    Error,
                >(e) && final(self)@ == old(self)@ && final(token)@ == old(token)@,
            },
            old(self)@.coherent() ==> final(self)@.coherent(),
    {
        let challenge = match self.challenges.get(&challenge_id) {
            Some(c) => *c,
            None => { return Err(Error::NotFound); },
        };
        if !challenge.resolved {
            return Err(Error::NotResolved);
        }
        let poll = match self.polls.get(&challenge_id) {
            Some(p) => *p,
            None => { return Err(Error::NotFound); },
        };
        let vote = match self.votes.get(&(challenge_id, sender)) {
            Some(v) => *v,
            None => { return Err(Error::NotFound); },
        };
        if vote.claimed {
            return Err(Error::AlreadyClaimed);
        }
        let mut events: Vec<Event> = Vec::new();
        if poll.passed == vote.value {
            let reward_ratio = match challenge.reward_pool.checked_div(challenge.total_tokens) {
                Some(q) => q,
                None => { return Err(Error::ArithmeticOverflow); },
            };
            let reward = match reward_ratio.checked_mul(vote.deposit) {
                Some(p) => p,
                None => { return Err(Error::ArithmeticOverflow); },
            };
            let total = match reward.checked_add(vote.deposit) {
                Some(t) => t,
                None => { return Err(Error::ArithmeticOverflow); },
            };
            match token.unlock(sender, total, challenge.listing_hash) {
                Err(e) => { return Err(e); },
                Ok(_) => {},
            }
            events.push(Event::Claimed(sender, challenge_id));
        }
        self.votes.insert((challenge_id, sender), Vote { value: vote.value, deposit: vote.deposit, claimed: true });
        proof {
            assert(old(self)@.claim_reward(old(token)@, sender, challenge_id) == Ok::<Outcome, Error>(
                Outcome { registry: self@, ledger: token@, events: events@ },
            ));
            if old(self)@.coherent() {
                lemma_step_coherent(old(self)@, old(token)@, sender, 0, Call::ClaimReward { challenge_id });
            }
        }
        Ok(events)
    }
}

} // verus!
