//! The contest's data.
use vstd::prelude::*;

use crate::ext::TokenId;
use vstd::arithmetic::div_mod::{
    lemma_div_by_multiple, lemma_div_is_ordered, lemma_fundamental_div_mod,
    lemma_hoist_over_denominator,
};

verus! {

/// Names of the persistent collections that hold the contest's data.
#[derive(PartialEq, Eq, Debug, Clone)]
pub enum StorageKey {
    Contest,
    Entry,
    VoteMap(String),
    Submission(String),
    VoteRecord(String),
    Winners(String),
}

/// An entry of a contest: the token it stands on and the votes it has.
#[derive(PartialEq, Eq, Debug, Clone)]
pub struct Art {
    pub title: String,
    pub contract_id: String,
    /// seconds since the epoch at which the entry was accepted
    pub timestamp: u64,
    pub votes: u32,
    pub token_id: TokenId,
    pub image_url: String,
}

impl Art {
    pub fn duplicate(&self) -> (r: Art)
        ensures
            r == *self,
    {
        Art {
            title: self.title.clone(),
            contract_id: self.contract_id.clone(),
            timestamp: self.timestamp,
            votes: self.votes,
            token_id: self.token_id.clone(),
            image_url: self.image_url.clone(),
        }
    }
}

/// A winner's payout: `places_won` of the `places_paid` paid places, shared with
/// the others of a tie group of `group_size`, so the amount is
/// `prize * places_won / (places_paid * group_size)`.
#[derive(PartialEq, Eq, Debug, Clone, Copy)]
pub struct PayOutInfo {
    pub places_won: u64,
    pub places_paid: u64,
    pub group_size: u64,
    pub proposal_id: Option<u64>,
}

impl PayOutInfo {
    /// The part of `prize` paid to this winner, rounded down.
    pub fn amount(&self, prize: u128) -> (r: u128)
        requires
            1 <= self.places_paid <= 0x7fff,
            1 <= self.group_size,
            self.places_won <= self.places_paid,
        ensures
            r == prize as int * self.places_won as int / (self.places_paid as int
                * self.group_size as int),
    {
        let paid = self.places_paid;
        let size = self.group_size;
        let won = self.places_won;
        assert(paid as int * size as int <= 0x7fff * 0xffff_ffff_ffff_ffff) by (nonlinear_arith)
            requires
                paid <= 0x7fff,
                size <= 0xffff_ffff_ffff_ffff,
        ;
        let d: u128 = paid as u128 * size as u128;
        assert(d >= 1) by (nonlinear_arith)
            requires
                d == paid * size,
                paid >= 1,
                size >= 1,
        ;
        let w: u128 = won as u128;
        let q = prize / d;
        let rem = prize % d;
        proof {
            let (pi, di, wi, qi, ri) = (prize as int, d as int, w as int, q as int, rem as int);
            lemma_fundamental_div_mod(pi, di);
            assert(wi <= di) by (nonlinear_arith)
                requires
                    wi <= paid,
                    di == paid * size,
                    size >= 1,
            ;
            assert(qi * wi <= pi) by (nonlinear_arith)
                requires
                    wi <= di,
                    qi >= 0,
                    ri >= 0,
                    pi == di * qi + ri,
            ;
            assert(ri * wi <= di * 0x7fff) by (nonlinear_arith)
                requires
                    0 <= ri < di,
                    0 <= wi <= 0x7fff,
            ;
            lemma_hoist_over_denominator(ri * wi, qi * wi, di as nat);
            assert(ri * wi + qi * wi * di == pi * wi) by (nonlinear_arith)
                requires
                    pi == di * qi + ri,
            ;
            assert(pi * wi <= pi * di) by (nonlinear_arith)
                requires
                    wi <= di,
                    pi >= 0,
            ;
            lemma_div_is_ordered(pi * wi, pi * di, di);
            lemma_div_by_multiple(pi, di);
            assert(pi * di == di * pi) by (nonlinear_arith);
        }
        q * w + rem * w / d
    }
}

/// One contest: its windows (seconds since the epoch), its entries, who voted,
/// who is barred and who won. The prize is an amount in the smallest unit of
/// the token that pays it.
pub struct ContestSession {
    pub submission_start_time: u64,
    pub submission_end_time: u64,
    pub submissions: Vec<(String, Art)>,
    pub voting_start_time: u64,
    pub voting_end_time: u64,
    pub title: String,
    pub description: String,
    pub dao_id: String,
    pub logo_url: String,
    /// each artist with the accounts that voted for their entry, in order
    pub art_voters_mapping: Vec<(String, Vec<String>)>,
    pub vote_record: Vec<String>,
    pub winners: Vec<(String, PayOutInfo)>,
    pub blacklist: Vec<String>,
    pub prize: u128,
    pub places: i16,
    pub quorum: i16,
    /// the fewest votes an entry needs to be considered for a place
    pub min_art_vote: i16,
    pub creator: String,
    pub finalised: bool,
    /// the votes that entries held when they were withdrawn; those votes stay
    /// on record
    pub withdrawn_votes: usize,
}

/// What a contest shows to readers.
#[derive(PartialEq, Eq, Debug, Clone)]
pub struct SerializeableContestSession {
    pub submission_start_time: u64,
    pub submission_end_time: u64,
    pub voting_start_time: u64,
    pub voting_end_time: u64,
    pub title: String,
    pub description: String,
    pub dao_id: String,
    pub prize: u128,
    pub places: i16,
    pub logo_url: String,
    pub submissions: u64,
    pub winners: Vec<String>,
    pub creator: String,
}

/// How the votes of a policy are weighted.
#[derive(PartialEq, Eq, Debug, Clone, Copy)]
pub enum WeightKind {
    TokenWeight,
    RoleWeight,
}

#[derive(PartialEq, Eq, Debug, Clone, Copy)]
pub enum WeightOrRatio {
    Weight(u128),
    Ratio(u64, u64),
}

/// Configuration of a vote of a policy.
#[derive(PartialEq, Eq, Debug, Clone, Copy)]
pub struct VotePolicy {
    pub weight_kind: WeightKind,
    pub quorum: u128,
    pub threshold: WeightOrRatio,
}

/// Which accounts a role applies to.
#[derive(PartialEq, Eq, Debug, Clone)]
pub enum RoleKind {
    Everyone,
    /// members holding at least the given balance
    Member(u128),
    Group(Vec<String>),
}

/// A role of a policy: its name, whom it applies to, and the actions it
/// grants, each written `<proposal kind>:<action>`, where `*` stands for any.
#[derive(PartialEq, Eq, Debug, Clone)]
pub struct RolePermission {
    pub name: String,
    pub kind: RoleKind,
    pub permissions: Vec<String>,
    pub vote_policy: Vec<(String, VotePolicy)>,
}

/// The policy of a DAO.
#[derive(PartialEq, Eq, Debug, Clone)]
pub struct Policy {
    pub roles: Vec<RolePermission>,
    pub default_vote_policy: VotePolicy,
    pub proposal_bond: u128,
    pub proposal_period: u64,
    pub bounty_bond: u128,
    pub bounty_forgiveness_period: u64,
}

} // verus!
