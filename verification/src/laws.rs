//! What holds of every registry that the calls can reach.

use vstd::prelude::*;
use crate::error::Error;
use crate::hashing::ListingHash;
use crate::sum::{lemma_total_insert, lemma_total_remove_le, lemma_total_scaled, scaled, total};
use crate::tcr::{reward, GenesisConfig, Moment, Outcome, Registry, Vote};
use crate::token::{AccountId, Ledger, TokenBalance};

verus! {

/// A call to the registry, with its arguments.
pub enum Call {
    Init,
    SetConfig { min_deposit: TokenBalance, apply_stage_len: Moment, commit_stage_len: Moment },
    AddAdmin { new_admin: AccountId },
    RemoveAdmin { admin_to_remove: AccountId },
    Propose { data: Seq<u8>, hashed: ListingHash, deposit: TokenBalance },
    Challenge { listing_id: u32, deposit: TokenBalance },
    Vote { challenge_id: u32, value: bool, deposit: TokenBalance },
    Resolve { listing_id: u32 },
    ClaimReward { challenge_id: u32 },
}

/// A call that touches the registry alone leaves the ledger as it is and
/// reports nothing.
pub open spec fn registry_only(r: Result<Registry, Error>, ledger: Ledger) -> Result<Outcome, Error> {
    match r {
        Ok(registry) => Ok(Outcome { registry, ledger, events: Seq::empty() }),
        Err(e) => Err(e),
    }
}

/// What `call`, made by `sender` at time `now`, does to the registry and the
/// ledger.
pub open spec fn step(
    registry: Registry,
    ledger: Ledger,
    sender: AccountId,
    now: Moment,
    call: Call,
) -> Result<Outcome, Error> {
    match call {
        Call::Init => registry.init(ledger, sender),
        Call::SetConfig { min_deposit, apply_stage_len, commit_stage_len } => registry_only(
            registry.set_config(sender, min_deposit, apply_stage_len, commit_stage_len),
            ledger,
        ),
        Call::AddAdmin { new_admin } => registry_only(registry.add_admin(sender, new_admin), ledger),
        Call::RemoveAdmin { admin_to_remove } => registry_only(
            registry.remove_admin(sender, admin_to_remove),
            ledger,
        ),
        Call::Propose { data, hashed, deposit } => registry.propose(
            ledger,
            sender,
            data,
            hashed,
            deposit,
            now,
        ),
        Call::Challenge { listing_id, deposit } => registry.challenge(
            ledger,
            sender,
            listing_id,
            deposit,
            now,
        ),
        Call::Vote { challenge_id, value, deposit } => registry.vote(
            ledger,
            sender,
            challenge_id,
            value,
            deposit,
            now,
        ),
        Call::Resolve { listing_id } => registry.resolve(ledger, listing_id, now),
        Call::ClaimReward { challenge_id } => registry.claim_reward(ledger, sender, challenge_id),
    }
}

/// The deposits of the votes on challenge `challenge_id` that `counts`
/// picks, each under the key of its vote.
pub open spec fn stakes(
    votes: Map<(u32, AccountId), Vote>,
    challenge_id: u32,
    counts: spec_fn(Vote) -> bool,
) -> Map<(u32, AccountId), nat> {
    Map::new(
        |k: (u32, AccountId)| votes.contains_key(k) && k.0 == challenge_id && counts(votes[k]),
        |k: (u32, AccountId)| votes[k].deposit as nat,
    )
}

/// Picks the votes whose reward has not been claimed.
pub open spec fn unclaimed() -> spec_fn(Vote) -> bool {
    |v: Vote| !v.claimed
}

/// Picks the votes for keeping the listing (`side`), or against.
pub open spec fn on_side(side: bool) -> spec_fn(Vote) -> bool {
    |v: Vote| v.value == side
}

/// Among finitely many votes, finitely many are picked.
pub proof fn lemma_stakes_finite(
    votes: Map<(u32, AccountId), Vote>,
    challenge_id: u32,
    counts: spec_fn(Vote) -> bool,
)
    requires
        votes.dom().finite(),
    ensures
        stakes(votes, challenge_id, counts).dom().finite(),
{
    vstd::set_lib::lemma_set_subset_finite(votes.dom(), stakes(votes, challenge_id, counts).dom());
}

/// Filing a vote puts its deposit among the stakes where the vote is on the
/// challenge and is picked, and else takes the key out of them.
pub proof fn lemma_stakes_insert(
    votes: Map<(u32, AccountId), Vote>,
    key: (u32, AccountId),
    vote: Vote,
    challenge_id: u32,
    counts: spec_fn(Vote) -> bool,
)
    ensures
        stakes(votes.insert(key, vote), challenge_id, counts) == (if key.0 == challenge_id && counts(
            vote,
        ) {
            stakes(votes, challenge_id, counts).insert(key, vote.deposit as nat)
        } else {
            stakes(votes, challenge_id, counts).remove(key)
        }),
{
    let after = stakes(votes.insert(key, vote), challenge_id, counts);
    let before = stakes(votes, challenge_id, counts);
    if key.0 == challenge_id && counts(vote) {
        assert(after =~= before.insert(key, vote.deposit as nat));
    } else {
        assert(after =~= before.remove(key));
    }
}

impl Registry {
    /// Challenge numbers start at 1 and are given out in order; each
    /// challenge has its poll and its listing, and each vote its challenge.
    pub open spec fn well_numbered(self) -> bool {
        &&& self.poll_nonce >= 1
        &&& self.votes.dom().finite()
        &&& forall|c: u32| #[trigger]
            self.challenges.contains_key(c) ==> 1 <= c < self.poll_nonce && self.polls.contains_key(
                c,
            )
        &&& forall|c: u32| #[trigger]
            self.challenges.contains_key(c) ==> self.listings.contains_key(
                self.challenges[c].listing_hash,
            )
        &&& forall|k: (u32, AccountId)| #[trigger]
            self.votes.contains_key(k) ==> self.challenges.contains_key(k.0)
    }

    /// A listing's challenge number, where it is not 0, names an unresolved
    /// challenge against that listing; and an unresolved challenge is the
    /// one that its listing names. So no listing has two open challenges.
    pub open spec fn one_open_challenge(self) -> bool {
        &&& forall|h: ListingHash| #[trigger]
            self.listings.contains_key(h) && self.listings[h].challenge_id != 0 ==> {
                let c = self.listings[h].challenge_id;
                &&& self.challenges.contains_key(c)
                &&& !self.challenges[c].resolved
                &&& self.challenges[c].listing_hash == h
            }
        &&& forall|c: u32| #[trigger]
            self.challenges.contains_key(c) && !self.challenges[c].resolved ==> {
                let h = self.challenges[c].listing_hash;
                &&& self.listings.contains_key(h)
                &&& self.listings[h].challenge_id == c
            }
    }

    /// A vote is claimed only once its challenge is resolved.
    pub open spec fn claimed_after_resolution(self) -> bool {
        forall|k: (u32, AccountId)| #[trigger]
            self.votes.contains_key(k) && self.votes[k].claimed ==> self.challenges[k.0].resolved
    }

    /// The tally of challenge `c` is at least what the votes on file stake:
    /// while the challenge is open, on each side; once it is resolved, the
    /// winning tally on the winning side.
    pub open spec fn tally_covers(self, c: u32) -> bool {
        if self.challenges[c].resolved {
            total(stakes(self.votes, c, on_side(self.polls[c].passed)))
                <= self.challenges[c].total_tokens
        } else {
            &&& total(stakes(self.votes, c, on_side(true))) <= self.polls[c].votes_for
            &&& total(stakes(self.votes, c, on_side(false))) <= self.polls[c].votes_against
        }
    }

    /// The records of the registry agree with one another.
    pub open spec fn coherent(self) -> bool {
        &&& self.well_numbered()
        &&& self.one_open_challenge()
        &&& self.claimed_after_resolution()
        &&& forall|c: u32| #[trigger] self.challenges.contains_key(c) ==> self.tally_covers(c)
    }

    /// The two tallies of the open challenge `c` add up to the listing's
    /// deposit, the challenger's deposit and the deposits of the unclaimed
    /// votes on file.
    pub open spec fn tally_exact(self, c: u32) -> bool {
        self.polls[c].votes_for + self.polls[c].votes_against
            == self.listings[self.challenges[c].listing_hash].deposit + self.challenges[c].deposit
            + total(stakes(self.votes, c, unclaimed()))
    }

    /// Every open challenge has exact tallies.
    pub open spec fn tallies_exact(self) -> bool {
        forall|c: u32| #[trigger]
            self.challenges.contains_key(c) && !self.challenges[c].resolved ==> self.tally_exact(c)
    }
}

/// No vote is on file for a challenge number that has not been given out.
proof fn lemma_no_stakes_yet(registry: Registry, c: u32, counts: spec_fn(Vote) -> bool)
    requires
        registry.well_numbered(),
        !registry.challenges.contains_key(c),
    ensures
        total(stakes(registry.votes, c, counts)) == 0,
{
    assert(stakes(registry.votes, c, counts) =~= Map::<(u32, AccountId), nat>::empty()) by {
        assert forall|k: (u32, AccountId)| !stakes(registry.votes, c, counts).contains_key(k) by {
            if registry.votes.contains_key(k) && k.0 == c {
                assert(registry.challenges.contains_key(k.0));
            }
        }
    }
}

/// A registry fresh from genesis, with challenge numbers starting at 1 or
/// above, is coherent and has exact tallies.
pub proof fn lemma_genesis_coherent(config: GenesisConfig)
    requires
        config.poll_nonce >= 1,
    ensures
        Registry::genesis(config).coherent(),
        Registry::genesis(config).tallies_exact(),
{
}

/// `propose` keeps the registry coherent.
proof fn lemma_propose_keeps(
    registry: Registry,
    ledger: Ledger,
    sender: AccountId,
    data: Seq<u8>,
    hashed: ListingHash,
    deposit: TokenBalance,
    now: Moment,
)
    requires
        registry.coherent(),
        registry.propose(ledger, sender, data, hashed, deposit, now) is Ok,
    ensures
        registry.propose(ledger, sender, data, hashed, deposit, now)->Ok_0.registry.coherent(),
{
    let after = registry.propose(ledger, sender, data, hashed, deposit, now)->Ok_0.registry;
    assert(after.one_open_challenge()) by {
        assert forall|c: u32| #[trigger]
            after.challenges.contains_key(c) && !after.challenges[c].resolved implies ({
            let h = after.challenges[c].listing_hash;
            &&& after.listings.contains_key(h)
            &&& after.listings[h].challenge_id == c
        }) by {
            assert(registry.challenges.contains_key(c));
        }
    }
    assert forall|c: u32| #[trigger] after.challenges.contains_key(c) implies after.tally_covers(
        c,
    ) by {
        assert(registry.challenges.contains_key(c));
        assert(registry.tally_covers(c));
    }
}

/// `challenge` keeps the registry coherent.
proof fn lemma_challenge_keeps(
    registry: Registry,
    ledger: Ledger,
    sender: AccountId,
    listing_id: u32,
    deposit: TokenBalance,
    now: Moment,
)
    requires
        registry.coherent(),
        registry.challenge(ledger, sender, listing_id, deposit, now) is Ok,
    ensures
        registry.challenge(ledger, sender, listing_id, deposit, now)->Ok_0.registry.coherent(),
{
    let after = registry.challenge(ledger, sender, listing_id, deposit, now)->Ok_0.registry;
    let n = registry.poll_nonce;
    let h = registry.index_hash[listing_id];
    assert(!registry.challenges.contains_key(n));
    assert(after.well_numbered()) by {
        assert forall|c: u32| #[trigger] after.challenges.contains_key(c) implies 1 <= c
            < after.poll_nonce && after.polls.contains_key(c) by {
            if c != n {
                assert(registry.challenges.contains_key(c));
            }
        }
        assert forall|k: (u32, AccountId)| #[trigger]
            after.votes.contains_key(k) implies after.challenges.contains_key(k.0) by {
            assert(registry.votes.contains_key(k));
        }
    }
    assert(after.one_open_challenge()) by {
        assert forall|g: ListingHash| #[trigger]
            after.listings.contains_key(g) && after.listings[g].challenge_id != 0 implies ({
            let c = after.listings[g].challenge_id;
            &&& after.challenges.contains_key(c)
            &&& !after.challenges[c].resolved
            &&& after.challenges[c].listing_hash == g
        }) by {
            if g != h {
                assert(registry.listings.contains_key(g));
                assert(registry.challenges.contains_key(registry.listings[g].challenge_id));
            }
        }
        assert forall|c: u32| #[trigger]
            after.challenges.contains_key(c) && !after.challenges[c].resolved implies ({
            let g = after.challenges[c].listing_hash;
            &&& after.listings.contains_key(g)
            &&& after.listings[g].challenge_id == c
        }) by {
            if c != n {
                assert(registry.challenges.contains_key(c));
            }
        }
    }
    assert(after.claimed_after_resolution()) by {
        assert forall|k: (u32, AccountId)| #[trigger]
            after.votes.contains_key(k) && after.votes[k].claimed implies after.challenges[k.0].resolved by {
            assert(registry.votes.contains_key(k));
            assert(registry.challenges.contains_key(k.0));
        }
    }
    assert forall|c: u32| #[trigger] after.challenges.contains_key(c) implies after.tally_covers(
        c,
    ) by {
        if c == n {
            lemma_no_stakes_yet(registry, n, on_side(true));
            lemma_no_stakes_yet(registry, n, on_side(false));
        } else {
            assert(registry.challenges.contains_key(c));
            assert(registry.tally_covers(c));
        }
    }
}

/// A vote leaves the stakes of every other challenge as they are.
proof fn lemma_stakes_elsewhere(
    votes: Map<(u32, AccountId), Vote>,
    key: (u32, AccountId),
    vote: Vote,
    challenge_id: u32,
    counts: spec_fn(Vote) -> bool,
)
    requires
        key.0 != challenge_id,
    ensures
        stakes(votes.insert(key, vote), challenge_id, counts) == stakes(votes, challenge_id, counts),
{
    assert(stakes(votes.insert(key, vote), challenge_id, counts) =~= stakes(
        votes,
        challenge_id,
        counts,
    ));
}

/// A vote raises the stakes that `counts` picks by no more than its deposit.
proof fn lemma_stakes_grow(
    votes: Map<(u32, AccountId), Vote>,
    key: (u32, AccountId),
    vote: Vote,
    counts: spec_fn(Vote) -> bool,
)
    requires
        votes.dom().finite(),
    ensures
        total(stakes(votes.insert(key, vote), key.0, counts)) <= total(stakes(votes, key.0, counts))
            + (if counts(vote) {
            vote.deposit as nat
        } else {
            0
        }),
        !votes.contains_key(key) ==> total(stakes(votes.insert(key, vote), key.0, counts)) == total(
            stakes(votes, key.0, counts),
        ) + (if counts(vote) {
            vote.deposit as nat
        } else {
            0
        }),
{
    let before = stakes(votes, key.0, counts);
    lemma_stakes_finite(votes, key.0, counts);
    lemma_stakes_insert(votes, key, vote, key.0, counts);
    lemma_total_insert(before, key, vote.deposit as nat);
    lemma_total_remove_le(before, key);
    if !votes.contains_key(key) {
        assert(before.remove(key) =~= before);
    }
}

/// `vote` keeps the registry coherent.
proof fn lemma_vote_keeps(
    registry: Registry,
    ledger: Ledger,
    sender: AccountId,
    challenge_id: u32,
    value: bool,
    deposit: TokenBalance,
    now: Moment,
)
    requires
        registry.coherent(),
        registry.vote(ledger, sender, challenge_id, value, deposit, now) is Ok,
    ensures
        registry.vote(ledger, sender, challenge_id, value, deposit, now)->Ok_0.registry.coherent(),
{
    let after = registry.vote(ledger, sender, challenge_id, value, deposit, now)->Ok_0.registry;
    let key = (challenge_id, sender);
    let vote = Vote { value, deposit, claimed: false };
    assert(after.votes == registry.votes.insert(key, vote));
    assert(after.well_numbered()) by {
        assert forall|k: (u32, AccountId)| #[trigger]
            after.votes.contains_key(k) implies after.challenges.contains_key(k.0) by {
            if k != key {
                assert(registry.votes.contains_key(k));
            }
        }
    }
    assert(after.claimed_after_resolution()) by {
        assert forall|k: (u32, AccountId)| #[trigger]
            after.votes.contains_key(k) && after.votes[k].claimed implies after.challenges[k.0].resolved by {
            if k != key {
                assert(registry.votes.contains_key(k));
            }
        }
    }
    assert forall|c: u32| #[trigger] after.challenges.contains_key(c) implies after.tally_covers(
        c,
    ) by {
        assert(registry.challenges.contains_key(c));
        assert(registry.tally_covers(c));
        if c == challenge_id {
            lemma_stakes_grow(registry.votes, key, vote, on_side(true));
            lemma_stakes_grow(registry.votes, key, vote, on_side(false));
        } else {
            lemma_stakes_elsewhere(registry.votes, key, vote, c, on_side(true));
            lemma_stakes_elsewhere(registry.votes, key, vote, c, on_side(false));
        }
    }
}

/// `resolve` keeps the registry coherent.
proof fn lemma_resolve_keeps(registry: Registry, ledger: Ledger, listing_id: u32, now: Moment)
    requires
        registry.coherent(),
        registry.resolve(ledger, listing_id, now) is Ok,
    ensures
        registry.resolve(ledger, listing_id, now)->Ok_0.registry.coherent(),
{
    let after = registry.resolve(ledger, listing_id, now)->Ok_0.registry;
    let h = registry.index_hash[listing_id];
    let c0 = registry.listings[h].challenge_id;
    assert(registry.listings.contains_key(h));
    if c0 != 0 {
        assert(registry.challenges.contains_key(c0));
        assert(!registry.challenges[c0].resolved);
        assert(registry.challenges[c0].listing_hash == h);
    }
    assert(after.well_numbered()) by {
        assert forall|c: u32| #[trigger] after.challenges.contains_key(c) implies 1 <= c
            < after.poll_nonce && after.polls.contains_key(c) by {
            assert(registry.challenges.contains_key(c));
        }
        assert forall|k: (u32, AccountId)| #[trigger]
            after.votes.contains_key(k) implies after.challenges.contains_key(k.0) by {
            assert(registry.votes.contains_key(k));
        }
    }
    assert(after.one_open_challenge()) by {
        assert forall|g: ListingHash| #[trigger]
            after.listings.contains_key(g) && after.listings[g].challenge_id != 0 implies ({
            let c = after.listings[g].challenge_id;
            &&& after.challenges.contains_key(c)
            &&& !after.challenges[c].resolved
            &&& after.challenges[c].listing_hash == g
        }) by {
            assert(g != h);
            assert(registry.listings.contains_key(g));
            assert(registry.challenges.contains_key(registry.listings[g].challenge_id));
        }
        assert forall|c: u32| #[trigger]
            after.challenges.contains_key(c) && !after.challenges[c].resolved implies ({
            let g = after.challenges[c].listing_hash;
            &&& after.listings.contains_key(g)
            &&& after.listings[g].challenge_id == c
        }) by {
            assert(registry.challenges.contains_key(c));
        }
    }
    assert(after.claimed_after_resolution()) by {
        assert forall|k: (u32, AccountId)| #[trigger]
            after.votes.contains_key(k) && after.votes[k].claimed implies after.challenges[k.0].resolved by {
            assert(registry.votes.contains_key(k));
            assert(registry.challenges.contains_key(k.0));
        }
    }
    assert forall|c: u32| #[trigger] after.challenges.contains_key(c) implies after.tally_covers(
        c,
    ) by {
        assert(registry.challenges.contains_key(c));
        assert(registry.tally_covers(c));
    }
}

/// Marking a vote as claimed leaves every stake as it is, where the votes
/// are picked by their side.
proof fn lemma_stakes_claimed(
    votes: Map<(u32, AccountId), Vote>,
    key: (u32, AccountId),
    challenge_id: u32,
    side: bool,
)
    requires
        votes.contains_key(key),
    ensures
        stakes(votes.insert(key, Vote { claimed: true, ..votes[key] }), challenge_id, on_side(side))
            == stakes(votes, challenge_id, on_side(side)),
{
    assert(stakes(votes.insert(key, Vote { claimed: true, ..votes[key] }), challenge_id, on_side(side))
        =~= stakes(votes, challenge_id, on_side(side)));
}

/// `claim_reward` keeps the registry coherent.
proof fn lemma_claim_keeps(registry: Registry, ledger: Ledger, sender: AccountId, challenge_id: u32)
    requires
        registry.coherent(),
        registry.claim_reward(ledger, sender, challenge_id) is Ok,
    ensures
        registry.claim_reward(ledger, sender, challenge_id)->Ok_0.registry.coherent(),
{
    let after = registry.claim_reward(ledger, sender, challenge_id)->Ok_0.registry;
    let key = (challenge_id, sender);
    let vote = Vote { claimed: true, ..registry.votes[key] };
    assert(after.votes == registry.votes.insert(key, vote));
    assert(after.well_numbered()) by {
        assert forall|k: (u32, AccountId)| #[trigger]
            after.votes.contains_key(k) implies after.challenges.contains_key(k.0) by {
            if k != key {
                assert(registry.votes.contains_key(k));
            }
        }
    }
    assert(after.claimed_after_resolution()) by {
        assert forall|k: (u32, AccountId)| #[trigger]
            after.votes.contains_key(k) && after.votes[k].claimed implies after.challenges[k.0].resolved by {
            if k != key {
                assert(registry.votes.contains_key(k));
            }
        }
    }
    assert forall|c: u32| #[trigger] after.challenges.contains_key(c) implies after.tally_covers(
        c,
    ) by {
        assert(registry.challenges.contains_key(c));
        assert(registry.tally_covers(c));
        lemma_stakes_claimed(registry.votes, key, c, true);
        lemma_stakes_claimed(registry.votes, key, c, false);
    }
}

/// Whether `sender` casts, with `call`, a second vote on challenge `c`.
pub open spec fn votes_again_on(registry: Registry, sender: AccountId, call: Call, c: u32) -> bool {
    call matches Call::Vote { challenge_id, .. } && challenge_id == c && registry.votes.contains_key(
        (c, sender),
    )
}

/// Every call keeps a coherent registry coherent. With it: at any time a
/// listing has at most one open challenge, and a listing's challenge number,
/// where it is not 0, names an unresolved challenge on file.
pub proof fn lemma_step_coherent(
    registry: Registry,
    ledger: Ledger,
    sender: AccountId,
    now: Moment,
    call: Call,
)
    requires
        registry.coherent(),
        step(registry, ledger, sender, now, call) is Ok,
    ensures
        step(registry, ledger, sender, now, call)->Ok_0.registry.coherent(),
{
    let after = step(registry, ledger, sender, now, call)->Ok_0.registry;
    match call {
        Call::Propose { data, hashed, deposit } => {
            lemma_propose_keeps(registry, ledger, sender, data, hashed, deposit, now);
        },
        Call::Challenge { listing_id, deposit } => {
            lemma_challenge_keeps(registry, ledger, sender, listing_id, deposit, now);
        },
        Call::Vote { challenge_id, value, deposit } => {
            lemma_vote_keeps(registry, ledger, sender, challenge_id, value, deposit, now);
        },
        Call::Resolve { listing_id } => {
            lemma_resolve_keeps(registry, ledger, listing_id, now);
        },
        Call::ClaimReward { challenge_id } => {
            lemma_claim_keeps(registry, ledger, sender, challenge_id);
        },
        _ => {
            assert(after.challenges == registry.challenges);
            assert(after.polls == registry.polls);
            assert(after.votes == registry.votes);
            assert(after.listings == registry.listings);
            assert forall|c: u32| #[trigger]
                after.challenges.contains_key(c) implies after.tally_covers(c) by {
                assert(registry.tally_covers(c));
            }
        },
    }
}

/// The tallies of one open challenge: every call but a second vote of one
/// account on challenge `c` leaves the votes for and against of `c` adding
/// up to the listing's deposit, the challenger's deposit and the deposits of
/// the unclaimed votes on `c`, where they did before the call or `c` is
/// opened by it.
pub proof fn lemma_step_tally_exact(
    registry: Registry,
    ledger: Ledger,
    sender: AccountId,
    now: Moment,
    call: Call,
    c: u32,
)
    requires
        registry.coherent(),
        registry.challenges.contains_key(c) && !registry.challenges[c].resolved
            ==> registry.tally_exact(c),
        !votes_again_on(registry, sender, call, c),
        step(registry, ledger, sender, now, call) is Ok,
        step(registry, ledger, sender, now, call)->Ok_0.registry.challenges.contains_key(c),
        !step(registry, ledger, sender, now, call)->Ok_0.registry.challenges[c].resolved,
    ensures
        step(registry, ledger, sender, now, call)->Ok_0.registry.tally_exact(c),
{
    let after = step(registry, ledger, sender, now, call)->Ok_0.registry;
    match call {
        Call::Propose { data, hashed, deposit } => {
            assert(registry.challenges.contains_key(c));
        },
        Call::Challenge { listing_id, deposit } => {
            if c == registry.poll_nonce {
                assert(!registry.challenges.contains_key(c));
                lemma_no_stakes_yet(registry, c, unclaimed());
            } else {
                assert(registry.challenges.contains_key(c));
            }
        },
        Call::Vote { challenge_id, value, deposit } => {
            let key = (challenge_id, sender);
            let vote = Vote { value, deposit, claimed: false };
            assert(after.votes == registry.votes.insert(key, vote));
            assert(registry.challenges.contains_key(c));
            if c == challenge_id {
                lemma_stakes_grow(registry.votes, key, vote, unclaimed());
            } else {
                lemma_stakes_elsewhere(registry.votes, key, vote, c, unclaimed());
            }
        },
        Call::Resolve { listing_id } => {
            let h = registry.index_hash[listing_id];
            assert(registry.listings.contains_key(h));
            assert(registry.challenges.contains_key(c));
        },
        Call::ClaimReward { challenge_id } => {
            let key = (challenge_id, sender);
            let vote = Vote { claimed: true, ..registry.votes[key] };
            assert(after.votes == registry.votes.insert(key, vote));
            assert(registry.challenges.contains_key(c));
            lemma_stakes_elsewhere(registry.votes, key, vote, c, unclaimed());
        },
        _ => {
            assert(after.challenges == registry.challenges);
            assert(after.polls == registry.polls);
            assert(after.votes == registry.votes);
            assert(after.listings == registry.listings);
        },
    }
}

/// Every call but a second vote of one account on one challenge keeps the
/// tallies of all open challenges exact.
pub proof fn lemma_step_tallies_exact(
    registry: Registry,
    ledger: Ledger,
    sender: AccountId,
    now: Moment,
    call: Call,
)
    requires
        registry.coherent(),
        registry.tallies_exact(),
        forall|c: u32| !votes_again_on(registry, sender, call, c),
        step(registry, ledger, sender, now, call) is Ok,
    ensures
        step(registry, ledger, sender, now, call)->Ok_0.registry.tallies_exact(),
{
    let after = step(registry, ledger, sender, now, call)->Ok_0.registry;
    assert forall|c: u32| #[trigger]
        after.challenges.contains_key(c) && !after.challenges[c].resolved implies after.tally_exact(
        c,
    ) by {
        assert(!votes_again_on(registry, sender, call, c));
        lemma_step_tally_exact(registry, ledger, sender, now, call, c);
    }
}

/// No call changes a resolved challenge or its poll: the winning tally and
/// the reward pool are computed once.
pub proof fn lemma_step_keeps_resolved(
    registry: Registry,
    ledger: Ledger,
    sender: AccountId,
    now: Moment,
    call: Call,
    c: u32,
)
    requires
        registry.coherent(),
        registry.challenges.contains_key(c),
        registry.challenges[c].resolved,
        step(registry, ledger, sender, now, call) is Ok,
    ensures
        step(registry, ledger, sender, now, call)->Ok_0.registry.challenges.contains_key(c),
        step(registry, ledger, sender, now, call)->Ok_0.registry.challenges[c]
            == registry.challenges[c],
        step(registry, ledger, sender, now, call)->Ok_0.registry.polls[c] == registry.polls[c],
{
    match call {
        Call::Resolve { listing_id } => {
            let h = registry.index_hash[listing_id];
            assert(registry.listings.contains_key(h));
        },
        _ => {},
    }
}

/// Resolving a listing again, after its challenge was resolved, counts no
/// poll: it is refused while the apply stage lasts, and past it changes no
/// challenge, no poll and no balance.
pub proof fn lemma_resolve_again(
    registry: Registry,
    ledger: Ledger,
    listing_id: u32,
    now: Moment,
    later_ledger: Ledger,
    later: Moment,
)
    requires
        registry.coherent(),
        registry.resolve(ledger, listing_id, now) is Ok,
        registry.listings[registry.index_hash[listing_id]].challenge_id != 0,
    ensures
        ({
            let first = registry.resolve(ledger, listing_id, now)->Ok_0.registry;
            let again = first.resolve(later_ledger, listing_id, later);
            let expiry = registry.listings[registry.index_hash[listing_id]].application_expiry;
            &&& later < expiry ==> again == Err::<Outcome, Error>(Error::WindowNotYetClosed)
            &&& later >= expiry ==> again is Ok && again->Ok_0.registry.challenges
                == first.challenges && again->Ok_0.registry.polls == first.polls
                && again->Ok_0.ledger == later_ledger
        }),
{
}

/// No call changes a vote that is claimed: it stays on file, claimed.
pub proof fn lemma_step_keeps_claimed(
    registry: Registry,
    ledger: Ledger,
    sender: AccountId,
    now: Moment,
    call: Call,
    key: (u32, AccountId),
)
    requires
        registry.coherent(),
        registry.votes.contains_key(key),
        registry.votes[key].claimed,
        step(registry, ledger, sender, now, call) is Ok,
    ensures
        step(registry, ledger, sender, now, call)->Ok_0.registry.votes.contains_key(key),
        step(registry, ledger, sender, now, call)->Ok_0.registry.votes[key] == registry.votes[key],
{
    assert(registry.challenges.contains_key(key.0));
    assert(registry.challenges[key.0].resolved);
    match call {
        Call::Vote { challenge_id, value, deposit } => {
            assert((challenge_id, sender) != key);
        },
        Call::ClaimReward { challenge_id } => {
            assert((challenge_id, sender) != key);
        },
        Call::Propose { data, hashed, deposit } => {
            let after = registry.propose(ledger, sender, data, hashed, deposit, now)->Ok_0.registry;
            assert(after.votes == registry.votes);
        },
        Call::Challenge { listing_id, deposit } => {
            let after = registry.challenge(ledger, sender, listing_id, deposit, now)->Ok_0.registry;
            assert(after.votes == registry.votes);
        },
        Call::Resolve { listing_id } => {
            let after = registry.resolve(ledger, listing_id, now)->Ok_0.registry;
            assert(after.votes == registry.votes);
        },
        _ => {},
    }
}

/// A claim that goes through finds the vote unclaimed and leaves it claimed;
/// the same claim made again is refused with `AlreadyClaimed`, whatever the
/// ledger holds by then.
pub proof fn lemma_claim_once(
    registry: Registry,
    ledger: Ledger,
    sender: AccountId,
    challenge_id: u32,
    later_ledger: Ledger,
)
    requires
        registry.claim_reward(ledger, sender, challenge_id) is Ok,
    ensures
        !registry.votes[(challenge_id, sender)].claimed,
        registry.claim_reward(ledger, sender, challenge_id)->Ok_0.registry.votes[(
            challenge_id,
            sender,
        )].claimed,
        registry.claim_reward(ledger, sender, challenge_id)->Ok_0.registry.claim_reward(
            later_ledger,
            sender,
            challenge_id,
        ) == Err::<Outcome, Error>(Error::AlreadyClaimed),
{
}

/// A claim that goes through pays the voter, out of the listing's escrow,
/// the reward and the deposit of a winning vote and nothing for a losing
/// one, and leaves every other balance as it was.
pub proof fn lemma_claim_pays(
    registry: Registry,
    ledger: Ledger,
    sender: AccountId,
    challenge_id: u32,
)
    requires
        registry.claim_reward(ledger, sender, challenge_id) is Ok,
    ensures
        ({
            let paid = registry.claim_reward(ledger, sender, challenge_id)->Ok_0.ledger;
            let challenge = registry.challenges[challenge_id];
            let vote = registry.votes[(challenge_id, sender)];
            let payout = if registry.polls[challenge_id].passed == vote.value {
                reward(challenge, vote) + vote.deposit
            } else {
                0
            };
            &&& paid.balance(sender) == ledger.balance(sender) + payout
            &&& paid.locked(challenge.listing_hash) == ledger.locked(challenge.listing_hash)
                - payout
            &&& forall|who: AccountId| who != sender ==> paid.balance(who) == ledger.balance(who)
        }),
{
}

/// The rewards of the votes on the winning side of the resolved challenge
/// `c`, each under the key of its vote.
pub open spec fn rewards(registry: Registry, c: u32) -> Map<(u32, AccountId), nat> {
    Map::new(
        |k: (u32, AccountId)|
            registry.votes.contains_key(k) && k.0 == c && registry.votes[k].value
                == registry.polls[c].passed,
        |k: (u32, AccountId)| reward(registry.challenges[c], registry.votes[k]) as nat,
    )
}

/// The rewards of the winning votes on a resolved challenge add up to no
/// more than its reward pool, and to all of it only where the winning tally
/// divides the pool.
pub proof fn lemma_rewards_within_pool(registry: Registry, c: u32)
    requires
        registry.coherent(),
        registry.challenges.contains_key(c),
        registry.challenges[c].resolved,
    ensures
        total(rewards(registry, c)) <= registry.challenges[c].reward_pool,
        total(rewards(registry, c)) == registry.challenges[c].reward_pool
            && registry.challenges[c].total_tokens > 0 ==> registry.challenges[c].reward_pool
            % registry.challenges[c].total_tokens == 0,
{
    let challenge = registry.challenges[c];
    let pool = challenge.reward_pool as nat;
    let tokens = challenge.total_tokens as nat;
    let winners = stakes(registry.votes, c, on_side(registry.polls[c].passed));
    let q = (challenge.reward_pool / challenge.total_tokens) as nat;
    let staked = total(winners);
    assert(registry.tally_covers(c));
    assert(staked <= tokens);
    lemma_stakes_finite(registry.votes, c, on_side(registry.polls[c].passed));
    assert(rewards(registry, c) =~= scaled(winners, q));
    lemma_total_scaled(winners, q);
    if tokens == 0 {
        assert(q * staked == 0) by (nonlinear_arith)
            requires
                staked == 0,
        ;
    } else {
        assert(q * staked <= pool && (q * staked == pool ==> pool % tokens == 0))
            by (nonlinear_arith)
            requires
                tokens > 0,
                staked <= tokens,
                q == pool / tokens,
        ;
    }
}

/// No challenge against the listing under `h` has been resolved.
pub open spec fn never_resolved(registry: Registry, h: ListingHash) -> bool {
    forall|c: u32| #[trigger]
        registry.challenges.contains_key(c) && registry.challenges[c].listing_hash == h
            ==> !registry.challenges[c].resolved
}

/// What is staked on the listing under `h`: its deposit and, while it is
/// challenged, the two tallies of the poll, which hold that deposit.
pub open spec fn staked_on(registry: Registry, h: ListingHash) -> int {
    let listing = registry.listings[h];
    if listing.challenge_id == 0 {
        listing.deposit as int
    } else {
        registry.polls[listing.challenge_id].votes_for
            + registry.polls[listing.challenge_id].votes_against
    }
}

/// The escrow of a hash without a listing is empty, and the escrow of a
/// listing that has not been through a resolved challenge holds exactly
/// what is staked on the listing.
pub open spec fn escrow_exact(registry: Registry, ledger: Ledger) -> bool {
    &&& forall|h: ListingHash| !(#[trigger] registry.listings.contains_key(h)) ==> ledger.locked(h) == 0
    &&& forall|h: ListingHash| #[trigger]
        registry.listings.contains_key(h) && never_resolved(registry, h) ==> ledger.locked(h)
            == staked_on(registry, h)
}

/// At genesis every escrow is empty.
pub proof fn lemma_genesis_escrow_exact(config: GenesisConfig, total_supply: TokenBalance)
    ensures
        escrow_exact(Registry::genesis(config), Ledger::genesis(total_supply)),
{
}

/// Transfers and approvals leave every escrow as it is.
pub proof fn lemma_transfers_keep_escrow(
    registry: Registry,
    ledger: Ledger,
    from: AccountId,
    to: AccountId,
    value: TokenBalance,
)
    requires
        escrow_exact(registry, ledger),
    ensures
        ledger.transfer(from, to, value) is Ok ==> escrow_exact(
            registry,
            ledger.transfer(from, to, value)->Ok_0,
        ),
        ledger.approve(from, to, value) is Ok ==> escrow_exact(
            registry,
            ledger.approve(from, to, value)->Ok_0,
        ),
        forall|spender: AccountId| #[trigger]
            ledger.transfer_from(spender, from, to, value) is Ok ==> escrow_exact(
                registry,
                ledger.transfer_from(spender, from, to, value)->Ok_0,
            ),
{
}

/// Every call to the registry keeps the escrows exact: as long as the
/// ledger's escrows are moved by the registry alone, the escrow of a listing
/// that has not been through a resolved challenge is the listing's deposit
/// and, while it is challenged, the challenger's deposit and the deposits of
/// the votes besides.
pub proof fn lemma_step_escrow_exact(
    registry: Registry,
    ledger: Ledger,
    sender: AccountId,
    now: Moment,
    call: Call,
)
    requires
        registry.coherent(),
        escrow_exact(registry, ledger),
        step(registry, ledger, sender, now, call) is Ok,
    ensures
        escrow_exact(
            step(registry, ledger, sender, now, call)->Ok_0.registry,
            step(registry, ledger, sender, now, call)->Ok_0.ledger,
        ),
{
    let after = step(registry, ledger, sender, now, call)->Ok_0.registry;
    let paid = step(registry, ledger, sender, now, call)->Ok_0.ledger;
    lemma_step_coherent(registry, ledger, sender, now, call);
    lemma_empty_escrows_stay(registry, ledger, sender, now, call);
    match call {
        Call::Propose { data, hashed, deposit } => {
            assert forall|h: ListingHash| #[trigger]
                after.listings.contains_key(h) && never_resolved(after, h) implies paid.locked(h)
                == staked_on(after, h) by {
                if h == hashed {
                    assert(!registry.listings.contains_key(h));
                } else {
                    assert(registry.listings.contains_key(h));
                    lemma_never_resolved_before(registry, after, h);
                }
            }
        },
        Call::Challenge { listing_id, deposit } => {
            let target = registry.index_hash[listing_id];
            let n = registry.poll_nonce;
            assert(!registry.challenges.contains_key(n));
            assert forall|h: ListingHash| #[trigger]
                after.listings.contains_key(h) && never_resolved(after, h) implies paid.locked(h)
                == staked_on(after, h) by {
                assert(registry.listings.contains_key(h));
                lemma_never_resolved_before(registry, after, h);
                if h != target && registry.listings[h].challenge_id != 0 {
                    assert(registry.challenges.contains_key(registry.listings[h].challenge_id));
                }
            }
        },
        Call::Vote { challenge_id, value, deposit } => {
            let target = registry.challenges[challenge_id].listing_hash;
            assert(registry.challenges.contains_key(challenge_id));
            assert(registry.listings.contains_key(target));
            assert forall|h: ListingHash| #[trigger]
                after.listings.contains_key(h) && never_resolved(after, h) implies paid.locked(h)
                == staked_on(after, h) by {
                assert(registry.listings.contains_key(h));
                lemma_never_resolved_before(registry, after, h);
                if h != target && registry.listings[h].challenge_id != 0 {
                    assert(registry.challenges.contains_key(registry.listings[h].challenge_id));
                }
            }
        },
        Call::Resolve { listing_id } => {
            let target = registry.index_hash[listing_id];
            let c0 = registry.listings[target].challenge_id;
            assert(registry.listings.contains_key(target));
            assert forall|h: ListingHash| #[trigger]
                after.listings.contains_key(h) && never_resolved(after, h) implies paid.locked(h)
                == staked_on(after, h) by {
                assert(registry.listings.contains_key(h));
                if c0 != 0 {
                    assert(registry.challenges.contains_key(c0));
                    assert(after.challenges.contains_key(c0));
                    assert(after.challenges[c0].resolved);
                    assert(h != target);
                    if registry.listings[h].challenge_id != 0 {
                        assert(registry.challenges.contains_key(registry.listings[h].challenge_id));
                    }
                }
                lemma_never_resolved_before(registry, after, h);
            }
        },
        Call::ClaimReward { challenge_id } => {
            let target = registry.challenges[challenge_id].listing_hash;
            assert(registry.challenges.contains_key(challenge_id));
            assert(registry.listings.contains_key(target));
            assert(after.challenges.contains_key(challenge_id));
            assert forall|h: ListingHash| #[trigger]
                after.listings.contains_key(h) && never_resolved(after, h) implies paid.locked(h)
                == staked_on(after, h) by {
                assert(h != target);
                lemma_never_resolved_before(registry, after, h);
            }
        },
        _ => {
            assert(after.challenges == registry.challenges);
            assert(after.polls == registry.polls);
            assert(after.listings == registry.listings);
            assert forall|h: ListingHash| #[trigger]
                after.listings.contains_key(h) && never_resolved(after, h) implies paid.locked(h)
                == staked_on(after, h) by {
                lemma_never_resolved_before(registry, after, h);
            }
        },
    }
}

/// No call puts anything into the escrow of a hash without a listing.
proof fn lemma_empty_escrows_stay(
    registry: Registry,
    ledger: Ledger,
    sender: AccountId,
    now: Moment,
    call: Call,
)
    requires
        registry.coherent(),
        escrow_exact(registry, ledger),
        step(registry, ledger, sender, now, call) is Ok,
    ensures
        forall|h: ListingHash|
            !(#[trigger] step(registry, ledger, sender, now, call)->Ok_0.registry.listings.contains_key(
                h,
            )) ==> step(registry, ledger, sender, now, call)->Ok_0.ledger.locked(h) == 0,
{
    let after = step(registry, ledger, sender, now, call)->Ok_0.registry;
    let paid = step(registry, ledger, sender, now, call)->Ok_0.ledger;
    match call {
        Call::Vote { challenge_id, .. } => {
            assert(registry.challenges.contains_key(challenge_id));
        },
        Call::ClaimReward { challenge_id } => {
            assert(registry.challenges.contains_key(challenge_id));
        },
        Call::Resolve { listing_id } => {
            assert(registry.listings.contains_key(registry.index_hash[listing_id]));
        },
        _ => {},
    }
    assert forall|h: ListingHash| !(#[trigger] after.listings.contains_key(h)) implies paid.locked(
        h,
    ) == 0 by {
        assert(!registry.listings.contains_key(h));
    }
}

/// A listing without a resolved challenge had none before, where each
/// challenge on file before is on file after, against the same listing, and
/// resolved if it was.
proof fn lemma_never_resolved_before(before: Registry, after: Registry, h: ListingHash)
    requires
        never_resolved(after, h),
        forall|c: u32| #[trigger]
            before.challenges.contains_key(c) ==> after.challenges.contains_key(c)
                && after.challenges[c].listing_hash == before.challenges[c].listing_hash && (
            before.challenges[c].resolved ==> after.challenges[c].resolved),
    ensures
        never_resolved(before, h),
{
    assert forall|c: u32| #[trigger]
        before.challenges.contains_key(c) && before.challenges[c].listing_hash
            == h implies !before.challenges[c].resolved by {
        assert(after.challenges.contains_key(c));
    }
}

/// With exact escrows and exact tallies, the escrow of a listing under its
/// first challenge is the listing's deposit, the challenger's deposit and
/// the deposits of the unclaimed votes on the challenge.
pub proof fn lemma_escrow_is_deposits(registry: Registry, ledger: Ledger, h: ListingHash)
    requires
        registry.coherent(),
        registry.tallies_exact(),
        escrow_exact(registry, ledger),
        registry.listings.contains_key(h),
        registry.listings[h].challenge_id != 0,
        never_resolved(registry, h),
    ensures
        ledger.locked(h) == registry.listings[h].deposit
            + registry.challenges[registry.listings[h].challenge_id].deposit + total(
            stakes(registry.votes, registry.listings[h].challenge_id, unclaimed()),
        ),
{
    let c = registry.listings[h].challenge_id;
    assert(registry.challenges.contains_key(c));
    assert(registry.tally_exact(c));
}

/// The amounts that a map of balances holds, as natural numbers.
pub open spec fn amounts<K>(balances: Map<K, TokenBalance>) -> Map<K, nat> {
    balances.map_values(|v: TokenBalance| v as nat)
}

/// All the tokens on the ledger: the free balances and the escrows.
pub open spec fn supply(ledger: Ledger) -> nat {
    total(amounts(ledger.balance_of)) + total(amounts(ledger.locked_deposits))
}

/// The ledger has finitely many balances and escrows.
pub open spec fn finite(ledger: Ledger) -> bool {
    ledger.balance_of.dom().finite() && ledger.locked_deposits.dom().finite()
}

/// Writing `amount` under `key` changes the sum of the balances by the
/// difference to what was there.
proof fn lemma_amounts_insert<K>(balances: Map<K, TokenBalance>, key: K, amount: TokenBalance)
    requires
        balances.dom().finite(),
    ensures
        balances.insert(key, amount).dom().finite(),
        total(amounts(balances.insert(key, amount))) == total(amounts(balances)) - (
        if balances.contains_key(key) {
            balances[key] as int
        } else {
            0
        }) + amount,
{
    assert(amounts(balances.insert(key, amount)) =~= amounts(balances).insert(key, amount as nat));
    assert(amounts(balances).dom() =~= balances.dom());
    lemma_total_insert(amounts(balances), key, amount as nat);
}

/// Tokens are made by `init` alone: it gives the holder the supply in place
/// of what it held, and no other call of the ledger changes the number of
/// tokens, free and in escrow together. A transfer to oneself changes
/// nothing at all.
pub proof fn lemma_ledger_conserves(
    ledger: Ledger,
    spender: AccountId,
    from: AccountId,
    to: AccountId,
    value: TokenBalance,
    listing_hash: ListingHash,
)
    requires
        finite(ledger),
    ensures
        ledger.init(from) matches Ok(after) ==> finite(after) && supply(after) == supply(ledger)
            - ledger.balance(from) + ledger.total_supply,
        ledger.transfer(from, to, value) matches Ok(after) ==> finite(after) && supply(after)
            == supply(ledger),
        ledger.transfer(from, from, value) matches Ok(after) ==> after == ledger,
        ledger.approve(from, spender, value) matches Ok(after) ==> finite(after) && supply(after)
            == supply(ledger),
        ledger.transfer_from(spender, from, to, value) matches Ok(after) ==> finite(after)
            && supply(after) == supply(ledger),
        ledger.lock(from, value, listing_hash) matches Ok(after) ==> finite(after) && supply(after)
            == supply(ledger),
        ledger.unlock(to, value, listing_hash) matches Ok(after) ==> finite(after) && supply(after)
            == supply(ledger),
{
    if ledger.init(from) is Ok {
        lemma_amounts_insert(ledger.balance_of, from, ledger.total_supply);
    }
    if ledger.transfer(from, to, value) is Ok && from != to {
        let debited = ledger.balance_of.insert(from, (ledger.balance_of[from] - value) as u64);
        lemma_amounts_insert(ledger.balance_of, from, (ledger.balance_of[from] - value) as u64);
        lemma_amounts_insert(debited, to, (ledger.balance(to) + value) as u64);
    }
    if ledger.lock(from, value, listing_hash) is Ok {
        lemma_amounts_insert(ledger.balance_of, from, (ledger.balance_of[from] - value) as u64);
        lemma_amounts_insert(
            ledger.locked_deposits,
            listing_hash,
            (ledger.locked(listing_hash) + value) as u64,
        );
    }
    if ledger.unlock(to, value, listing_hash) is Ok {
        lemma_amounts_insert(ledger.balance_of, to, (ledger.balance(to) + value) as u64);
        lemma_amounts_insert(
            ledger.locked_deposits,
            listing_hash,
            (ledger.locked(listing_hash) - value) as u64,
        );
    }
}

/// No call to the registry but `init` changes the number of tokens.
pub proof fn lemma_step_conserves(
    registry: Registry,
    ledger: Ledger,
    sender: AccountId,
    now: Moment,
    call: Call,
)
    requires
        finite(ledger),
        !(call is Init),
        step(registry, ledger, sender, now, call) is Ok,
    ensures
        finite(step(registry, ledger, sender, now, call)->Ok_0.ledger),
        supply(step(registry, ledger, sender, now, call)->Ok_0.ledger) == supply(ledger),
{
    match call {
        Call::Propose { data, hashed, deposit } => {
            lemma_ledger_conserves(ledger, sender, sender, sender, deposit, hashed);
        },
        Call::Challenge { listing_id, deposit } => {
            lemma_ledger_conserves(
                ledger,
                sender,
                sender,
                sender,
                deposit,
                registry.index_hash[listing_id],
            );
        },
        Call::Vote { challenge_id, value, deposit } => {
            lemma_ledger_conserves(
                ledger,
                sender,
                sender,
                sender,
                deposit,
                registry.challenges[challenge_id].listing_hash,
            );
        },
        Call::Resolve { listing_id } => {
            let h = registry.index_hash[listing_id];
            let challenge = registry.challenges[registry.listings[h].challenge_id];
            lemma_ledger_conserves(ledger, sender, sender, challenge.owner, challenge.deposit, h);
        },
        Call::ClaimReward { challenge_id } => {
            let challenge = registry.challenges[challenge_id];
            let vote = registry.votes[(challenge_id, sender)];
            lemma_ledger_conserves(
                ledger,
                sender,
                sender,
                sender,
                (reward(challenge, vote) + vote.deposit) as u64,
                challenge.listing_hash,
            );
        },
        _ => {},
    }
}

} // verus!
