//! The registry of contests and its entry points.
//!
//! Entry points that need an outside answer come in two steps: the first checks
//! and returns what to ask, and changes nothing; the second takes the answer
//! and checks again before it writes, since other calls may have run between.
use vstd::prelude::*;

use crate::allocation::{
    allocate_prizes, count_above, count_qualifying, is_allocation, member_views, paid_places,
    sum_places_won, tied_at,
    PrizeGroup,
};
use crate::errors::{ContestError, SubmissionError};
use crate::ext::{Token, TokenId};
use crate::permission::{can_add_proposal, may_add_proposal};
use crate::storage::{Art, ContestSession, PayOutInfo, Policy, SerializeableContestSession};
use vstd::arithmetic::div_mod::{
    lemma_div_by_multiple, lemma_div_is_ordered, lemma_div_pos_is_pos, lemma_fundamental_div_mod,
    lemma_mod_bound,
};
use crate::util::{
    copy_strings, find_key, has_key, is_listed, key_pos, keys_unique, lemma_key_pos, listed,
    no_dups, removed_key,
};

verus! {

/// All contests, the administrator and the pause switch. Contest ids are handed
/// out from 1 up by `session_counter`; the contest with id `k` is
/// `contests[k - 1]`.
pub struct ContestContract {
    pub paused: bool,
    pub admin: String,
    pub contests: Vec<ContestSession>,
    pub user_entries: Vec<(String, Vec<i16>)>,
    pub sbt_registry: String,
    pub session_counter: i16,
}

/// The token lookup that an entry needs before it is accepted.
#[derive(PartialEq, Eq, Debug, Clone)]
pub struct SubmissionLookup {
    pub nft_contract_id: String,
    pub token_id: TokenId,
    pub contest_id: i16,
}

/// The token lookup that a vote needs before it is counted.
#[derive(PartialEq, Eq, Debug, Clone)]
pub struct VoteLookup {
    pub nft_contract_id: String,
    pub token_id: TokenId,
    pub submission_owner: String,
    pub contest_id: i16,
}

/// The policy lookup that attaching a proposal id to a payout needs.
#[derive(PartialEq, Eq, Debug, Clone)]
pub struct PolicyLookup {
    pub dao_id: String,
    pub winner: String,
    pub contest_id: i16,
    pub proposal_id: u64,
}

/// One account per entry, per vote and per payout, and no barred account
/// holding an entry; winners only once the contest is finalised.
pub open spec fn session_wf(s: ContestSession) -> bool {
    &&& keys_unique(s.submissions@)
    &&& keys_unique(s.art_voters_mapping@)
    &&& no_dups(s.vote_record@)
    &&& keys_unique(s.winners@)
    &&& forall|i: int|
        0 <= i < s.submissions.len() ==> !listed(s.blacklist@, #[trigger] s.submissions@[i].0@)
    &&& !s.finalised ==> s.winners.len() == 0
    &&& s.vote_record.len() == sum_voters(s.art_voters_mapping@)
    &&& s.vote_record.len() == sum_votes(s.submissions@) + s.withdrawn_votes
}

/// The number of votes listed under all artists together.
pub open spec fn sum_voters(s: Seq<(String, Vec<String>)>) -> int
    decreases s.len(),
{
    if s.len() == 0 {
        0
    } else {
        sum_voters(s.drop_last()) + s.last().1.len()
    }
}

/// The sum of the votes of the entries.
pub open spec fn sum_votes(s: Seq<(String, Art)>) -> int
    decreases s.len(),
{
    if s.len() == 0 {
        0
    } else {
        sum_votes(s.drop_last()) + s.last().1.votes
    }
}

/// The settings of a contest, which nothing changes after creation.
pub open spec fn same_settings(a: ContestSession, b: ContestSession) -> bool {
    &&& a.submission_start_time == b.submission_start_time
    &&& a.submission_end_time == b.submission_end_time
    &&& a.voting_start_time == b.voting_start_time
    &&& a.voting_end_time == b.voting_end_time
    &&& a.title == b.title
    &&& a.description == b.description
    &&& a.dao_id == b.dao_id
    &&& a.logo_url == b.logo_url
    &&& a.prize == b.prize
    &&& a.places == b.places
    &&& a.quorum == b.quorum
    &&& a.min_art_vote == b.min_art_vote
    &&& a.creator == b.creator
}

/// The entries as (owner, votes), in order.
pub open spec fn tallies(s: Seq<(String, Art)>) -> Seq<(String, u32)> {
    s.map_values(|e: (String, Art)| (e.0, e.1.votes))
}

/// The payouts of one group: one for each member, in order.
pub open spec fn group_payouts(g: PrizeGroup, places_paid: u64) -> Seq<(String, PayOutInfo)> {
    g.members@.map_values(
        |m: String|
            (
                m,
                PayOutInfo {
                    places_won: g.places_won,
                    places_paid,
                    group_size: g.members.len() as u64,
                    proposal_id: None,
                },
            ),
    )
}

/// The payouts of a list of groups, group after group.
pub open spec fn payouts(groups: Seq<PrizeGroup>, places_paid: u64) -> Seq<(String, PayOutInfo)>
    decreases groups.len(),
{
    if groups.len() == 0 {
        Seq::empty()
    } else {
        payouts(groups.drop_last(), places_paid) + group_payouts(groups.last(), places_paid)
    }
}

/// `s` is a contest just created with these settings: nothing entered, voted
/// or won yet.
pub open spec fn fresh_session(
    s: ContestSession,
    creator: String,
    title: String,
    description: String,
    dao_id: String,
    logo_url: String,
    submission_start_time: u64,
    submission_end_time: u64,
    voting_start_time: u64,
    voting_end_time: u64,
    prize: u128,
    places: i16,
    quorum: i16,
    min_art_vote: i16,
) -> bool {
    &&& s.creator == creator
    &&& s.title == title
    &&& s.description == description
    &&& s.dao_id == dao_id
    &&& s.logo_url == logo_url
    &&& s.submission_start_time == submission_start_time
    &&& s.submission_end_time == submission_end_time
    &&& s.voting_start_time == voting_start_time
    &&& s.voting_end_time == voting_end_time
    &&& s.prize == prize
    &&& s.places == places
    &&& s.quorum == quorum
    &&& s.min_art_vote == min_art_vote
    &&& s.submissions.len() == 0
    &&& s.art_voters_mapping.len() == 0
    &&& s.vote_record.len() == 0
    &&& s.winners.len() == 0
    &&& s.blacklist.len() == 0
    &&& !s.finalised
    &&& s.withdrawn_votes == 0
}

/// `r` shows the contest `s` to readers.
pub open spec fn is_summary(r: SerializeableContestSession, s: ContestSession) -> bool {
    &&& r.submission_start_time == s.submission_start_time
    &&& r.submission_end_time == s.submission_end_time
    &&& r.voting_start_time == s.voting_start_time
    &&& r.voting_end_time == s.voting_end_time
    &&& r.title == s.title
    &&& r.description == s.description
    &&& r.dao_id == s.dao_id
    &&& r.prize == s.prize
    &&& r.places == s.places
    &&& r.logo_url == s.logo_url
    &&& r.submissions == s.submissions.len()
    &&& r.winners@ == s.winners@.map_values(|e: (String, PayOutInfo)| e.0)
    &&& r.creator == s.creator
}

/// The time lies in the window `[start, end)`.
pub open spec fn within(now: u64, start: u64, end: u64) -> bool {
    start <= now && now < end
}

/// The title an entry takes from its token's metadata.
pub open spec fn art_title(t: Option<String>) -> Seq<char> {
    match t {
        Some(s) => s@,
        None => "UnTitled"@,
    }
}

/// The image an entry takes from its token's metadata.
pub open spec fn art_image(m: Option<String>) -> Seq<char> {
    match m {
        Some(s) => s@,
        None => Seq::empty(),
    }
}

impl ContestContract {
    pub open spec fn wf(&self) -> bool {
        &&& self.session_counter >= 0
        &&& self.contests.len() == self.session_counter
        &&& forall|i: int| 0 <= i < self.contests.len() ==> session_wf(#[trigger] self.contests@[i])
    }

    pub open spec fn has_contest(&self, id: i16) -> bool {
        1 <= id <= self.contests.len()
    }

    pub open spec fn contest(&self, id: i16) -> ContestSession {
        self.contests@[id - 1]
    }

    /// Only the contest `id` differs between `self` and `other`.
    pub open spec fn others_kept(&self, other: &Self, id: i16) -> bool {
        &&& other.paused == self.paused
        &&& other.admin == self.admin
        &&& other.user_entries == self.user_entries
        &&& other.sbt_registry == self.sbt_registry
        &&& other.session_counter == self.session_counter
        &&& other.contests.len() == self.contests.len()
        &&& forall|i: int|
            0 <= i < self.contests.len() && i != id - 1 ==> other.contests@[i] == self.contests@[i]
    }

    /// Why `submit_art` refuses, if it does.
    pub open spec fn submit_error(&self, artist: Seq<char>, now: u64, id: i16) -> Option<ContestError> {
        if self.paused {
            Some(ContestError::Paused)
        } else if !self.has_contest(id) {
            Some(ContestError::ContestNotFound)
        } else if listed(self.contest(id).blacklist@, artist) {
            Some(ContestError::Rejected(SubmissionError::Blacklisted))
        } else if !within(
            now,
            self.contest(id).submission_start_time,
            self.contest(id).submission_end_time,
        ) {
            Some(ContestError::SubmissionClosed)
        } else if has_key(self.contest(id).submissions@, artist) {
            Some(ContestError::Rejected(SubmissionError::DuplicateCandidate))
        } else {
            None
        }
    }

    /// Why `on_submission_verified` refuses, if it does.
    pub open spec fn accept_error(&self, signer: Seq<char>, owner: Seq<char>, id: i16) -> Option<
        ContestError,
    > {
        if self.paused {
            Some(ContestError::Paused)
        } else if signer != owner {
            Some(ContestError::NotOwner)
        } else if !self.has_contest(id) {
            Some(ContestError::ContestNotFound)
        } else if listed(self.contest(id).blacklist@, owner) {
            Some(ContestError::Rejected(SubmissionError::Blacklisted))
        } else if has_key(self.contest(id).submissions@, owner) {
            Some(ContestError::Rejected(SubmissionError::DuplicateCandidate))
        } else {
            None
        }
    }

    pub fn new(sbt_registry: String, admin: String) -> (r: Self)
        ensures
            r.wf(),
            r.admin == admin,
            r.sbt_registry == sbt_registry,
            !r.paused,
            r.session_counter == 0,
            r.contests.len() == 0,
            r.user_entries.len() == 0,
    {
        ContestContract {
            admin,
            sbt_registry,
            paused: false,
            contests: Vec::new(),
            user_entries: Vec::new(),
            session_counter: 0,
        }
    }

    /// Opens a new contest created by `creator` and returns its id, the next
    /// one the counter gives. The windows are stored as given.
    pub fn create_contest(
        &mut self,
        creator: String,
        title: String,
        description: String,
        dao_id: String,
        logo_url: String,
        submission_start_time: u64,
        submission_end_time: u64,
        voting_start_time: u64,
        voting_end_time: u64,
        prize: u128,
        places: i16,
        quorum: i16,
        min_art_vote: i16,
    ) -> (r: Result<i16, ContestError>)
        requires
            old(self).wf(),
        ensures
            final(self).wf(),
            old(self).paused ==> r == Err::<i16, ContestError>(ContestError::Paused),
            !old(self).paused && old(self).session_counter == i16::MAX ==> r == Err::<
                i16,
                ContestError,
            >(ContestError::NoIdLeft),
            r.is_err() ==> *final(self) == *old(self),
            !old(self).paused && old(self).session_counter < i16::MAX ==> {
                &&& r == Ok::<i16, ContestError>((old(self).session_counter + 1) as i16)
                &&& final(self).session_counter == old(self).session_counter + 1
                &&& final(self).contests@.drop_last() == old(self).contests@
                &&& fresh_session(
                    final(self).contests@.last(),
                    creator,
                    title,
                    description,
                    dao_id,
                    logo_url,
                    submission_start_time,
                    submission_end_time,
                    voting_start_time,
                    voting_end_time,
                    prize,
                    places,
                    quorum,
                    min_art_vote,
                )
                &&& final(self).paused == old(self).paused
                &&& final(self).admin == old(self).admin
                &&& final(self).user_entries == old(self).user_entries
                &&& final(self).sbt_registry == old(self).sbt_registry
            },
    {
        if self.paused {
            return Err(ContestError::Paused);
        }
        if self.session_counter == i16::MAX {
            return Err(ContestError::NoIdLeft);
        }
        self.session_counter = self.session_counter + 1;
        let session_id = self.session_counter;
        let contest = ContestSession {
            title,
            description,
            dao_id,
            logo_url,
            submission_start_time,
            submission_end_time,
            voting_start_time,
            voting_end_time,
            submissions: Vec::new(),
            art_voters_mapping: Vec::new(),
            vote_record: Vec::new(),
            winners: Vec::new(),
            blacklist: Vec::new(),
            prize,
            places,
            quorum,
            min_art_vote,
            creator,
            finalised: false,
            withdrawn_votes: 0,
        };
        self.contests.push(contest);
        proof {
            assert(self.contests@.drop_last() == old(self).contests@);
            let s = self.contests@.last();
            assert(s.submissions@ == Seq::<(String, Art)>::empty());
            assert forall|i: int| 0 <= i < self.contests.len() implies session_wf(
                #[trigger] self.contests@[i],
            ) by {
                if i < old(self).contests.len() {
                    assert(self.contests@[i] == old(self).contests@[i]);
                }
            }
        }
        Ok(session_id)
    }

    /// Sets the pause switch; the administrator's action.
    pub fn pause_contract(&mut self, caller: &String, pause: bool) -> (r: Result<(), ContestError>)
        requires
            old(self).wf(),
        ensures
            final(self).wf(),
            caller@ != old(self).admin@ ==> r == Err::<(), ContestError>(ContestError::NotAdmin)
                && *final(self) == *old(self),
            caller@ == old(self).admin@ ==> r is Ok && final(self).paused == pause
                && final(self).admin == old(self).admin && final(self).contests
                == old(self).contests && final(self).user_entries == old(self).user_entries
                && final(self).sbt_registry == old(self).sbt_registry
                && final(self).session_counter == old(self).session_counter,
    {
        if *caller != self.admin {
            return Err(ContestError::NotAdmin);
        }
        self.paused = pause;
        Ok(())
    }

    /// Whether entries are open at `now`: the window `[start, end)`.
    pub fn is_submission_active(&self, now: u64, contest_id: i16) -> (r: Result<bool, ContestError>)
        ensures
            !self.has_contest(contest_id) ==> r == Err::<bool, ContestError>(
                ContestError::ContestNotFound,
            ),
            self.has_contest(contest_id) ==> r == Ok::<bool, ContestError>(
                within(
                    now,
                    self.contest(contest_id).submission_start_time,
                    self.contest(contest_id).submission_end_time,
                ),
            ),
    {
        if contest_id < 1 || contest_id as usize > self.contests.len() {
            return Err(ContestError::ContestNotFound);
        }
        let contest = &self.contests[(contest_id - 1) as usize];
        Ok(contest.submission_start_time <= now && now < contest.submission_end_time)
    }

    /// Whether votes are open at `now`: the window `[start, end)`.
    pub fn is_voting_active(&self, now: u64, contest_id: i16) -> (r: Result<bool, ContestError>)
        ensures
            !self.has_contest(contest_id) ==> r == Err::<bool, ContestError>(
                ContestError::ContestNotFound,
            ),
            self.has_contest(contest_id) ==> r == Ok::<bool, ContestError>(
                within(
                    now,
                    self.contest(contest_id).voting_start_time,
                    self.contest(contest_id).voting_end_time,
                ),
            ),
    {
        if contest_id < 1 || contest_id as usize > self.contests.len() {
            return Err(ContestError::ContestNotFound);
        }
        let contest = &self.contests[(contest_id - 1) as usize];
        Ok(contest.voting_start_time <= now && now < contest.voting_end_time)
    }

    /// First step of an entry by `artist` at `now`: checks that it may enter
    /// and returns the token lookup to make. Nothing is written.
    pub fn submit_art(
        &self,
        artist: &String,
        now: u64,
        nft_contract_id: String,
        token_id: TokenId,
        contest_id: i16,
    ) -> (r: Result<SubmissionLookup, ContestError>)
        requires
            self.wf(),
        ensures
            match self.submit_error(artist@, now, contest_id) {
                Some(e) => r == Err::<SubmissionLookup, ContestError>(e),
                None => r == Ok::<SubmissionLookup, ContestError>(
                    SubmissionLookup { nft_contract_id, token_id, contest_id },
                ),
            },
    {
        if self.paused {
            return Err(ContestError::Paused);
        }
        if contest_id < 1 || contest_id as usize > self.contests.len() {
            return Err(ContestError::ContestNotFound);
        }
        let contest = &self.contests[(contest_id - 1) as usize];
        if is_listed(&contest.blacklist, artist) {
            return Err(ContestError::Rejected(SubmissionError::Blacklisted));
        }
        if !(contest.submission_start_time <= now && now < contest.submission_end_time) {
            return Err(ContestError::SubmissionClosed);
        }
        if find_key(&contest.submissions, artist).is_some() {
            return Err(ContestError::Rejected(SubmissionError::DuplicateCandidate));
        }
        Ok(SubmissionLookup { nft_contract_id, token_id, contest_id })
    }

    /// Second step of an entry: `token` is what the token's contract reported.
    /// The entry is accepted for its owner when the owner signed, is not
    /// barred and has no entry yet; it starts with no votes.
    pub fn on_submission_verified(
        &mut self,
        signer: &String,
        now: u64,
        token: Token,
        token_id: TokenId,
        nft_contract_id: String,
        contest_id: i16,
    ) -> (r: Result<(), ContestError>)
        requires
            old(self).wf(),
        ensures
            final(self).wf(),
            match old(self).accept_error(signer@, token.owner_id@, contest_id) {
                Some(e) => r == Err::<(), ContestError>(e) && *final(self) == *old(self),
                None => {
                    let (before, after) = (
                        old(self).contest(contest_id),
                        final(self).contest(contest_id),
                    );
                    &&& r is Ok
                    &&& old(self).others_kept(final(self), contest_id)
                    &&& same_settings(before, after)
                    &&& after.submissions.len() == before.submissions.len() + 1
                    &&& after.submissions@.drop_last() == before.submissions@
                    &&& after.submissions@.last().0 == token.owner_id
                    &&& after.submissions@.last().1.title@ == art_title(token.metadata.title)
                    &&& after.submissions@.last().1.image_url@ == art_image(token.metadata.media)
                    &&& after.submissions@.last().1.contract_id == nft_contract_id
                    &&& after.submissions@.last().1.token_id == token_id
                    &&& after.submissions@.last().1.timestamp == now
                    &&& after.submissions@.last().1.votes == 0
                    &&& after.art_voters_mapping == before.art_voters_mapping
                    &&& after.vote_record == before.vote_record
                    &&& after.winners == before.winners
                    &&& after.blacklist == before.blacklist
                    &&& after.finalised == before.finalised
                    &&& after.withdrawn_votes == before.withdrawn_votes
                },
            },
    {
        if self.paused {
            return Err(ContestError::Paused);
        }
        if *signer != token.owner_id {
            return Err(ContestError::NotOwner);
        }
        if contest_id < 1 || contest_id as usize > self.contests.len() {
            return Err(ContestError::ContestNotFound);
        }
        let idx = (contest_id - 1) as usize;
        if is_listed(&self.contests[idx].blacklist, &token.owner_id) {
            return Err(ContestError::Rejected(SubmissionError::Blacklisted));
        }
        if find_key(&self.contests[idx].submissions, &token.owner_id).is_some() {
            return Err(ContestError::Rejected(SubmissionError::DuplicateCandidate));
        }
        let title = match token.metadata.title {
            Some(t) => t,
            None => String::from_str("UnTitled"),
        };
        let image_url = match token.metadata.media {
            Some(m) => m,
            None => String::new(),
        };
        let art = Art { title, contract_id: nft_contract_id, timestamp: now, votes: 0, token_id, image_url };
        let ghost old_contests = self.contests@;
        let mut contest = self.contests.remove(idx);
        let ghost before = contest;
        contest.submissions.push((token.owner_id, art));
        proof {
            assert(contest.submissions@.drop_last() == before.submissions@);
            lemma_push_keeps_unique(before.submissions@, contest.submissions@.last());
        }
        self.contests.insert(idx, contest);
        proof {
            assert(self.contests@ == old_contests.update(idx as int, contest));
            assert forall|i: int| 0 <= i < self.contests.len() implies session_wf(
                #[trigger] self.contests@[i],
            ) by {
                if i != idx {
                    assert(self.contests@[i] == old_contests[i]);
                } else {
                    assert forall|j: int| 0 <= j < contest.submissions.len() implies !listed(
                        contest.blacklist@,
                        #[trigger] contest.submissions@[j].0@,
                    ) by {
                        if j < before.submissions.len() {
                            assert(contest.submissions@[j] == before.submissions@[j]);
                        }
                    }
                }
            }
        }
        Ok(())
    }

    /// Why `vote` refuses, if it does.
    pub open spec fn vote_error(&self, voter: String, now: u64, id: i16, owner: Seq<char>) -> Option<
        ContestError,
    > {
        if self.paused {
            Some(ContestError::Paused)
        } else if !self.has_contest(id) {
            Some(ContestError::ContestNotFound)
        } else if !within(
            now,
            self.contest(id).voting_start_time,
            self.contest(id).voting_end_time,
        ) {
            Some(ContestError::VotingClosed)
        } else if listed(self.contest(id).blacklist@, voter@) {
            Some(ContestError::Rejected(SubmissionError::Blacklisted))
        } else if listed(self.contest(id).vote_record@, voter@) {
            Some(ContestError::Rejected(SubmissionError::DoubleVote(voter)))
        } else if !has_key(self.contest(id).submissions@, owner) {
            Some(ContestError::ArtNotFound)
        } else {
            None
        }
    }

    /// Why `on_vote_verified` refuses once the entry's owner is confirmed, if it does.
    pub open spec fn count_error(&self, voter: String, id: i16, owner: Seq<char>) -> Option<
        ContestError,
    > {
        let s = self.contest(id);
        if listed(s.blacklist@, voter@) {
            Some(ContestError::Rejected(SubmissionError::Blacklisted))
        } else if listed(s.vote_record@, voter@) {
            Some(ContestError::Rejected(SubmissionError::DoubleVote(voter)))
        } else if !has_key(s.submissions@, owner) {
            Some(ContestError::ArtNotFound)
        } else if s.submissions@[key_pos(s.submissions@, owner)].1.votes == u32::MAX {
            Some(ContestError::VoteLimit)
        } else {
            None
        }
    }

    /// Why `finalise_contest` refuses, if it does.
    pub open spec fn finalise_error(&self, now: u64, id: i16) -> Option<ContestError> {
        if self.paused {
            Some(ContestError::Paused)
        } else if !self.has_contest(id) {
            Some(ContestError::ContestNotFound)
        } else if now < self.contest(id).voting_end_time {
            Some(ContestError::VotingOngoing)
        } else if self.contest(id).finalised {
            Some(ContestError::AlreadyFinalised)
        } else {
            None
        }
    }

    /// Closes the contest once voting has ended and pays out its places: the
    /// winners are the payouts of the allocation over the entries' votes.
    /// A contest is finalised once; where no entry qualifies it ends with no
    /// winners.
    pub fn finalise_contest(&mut self, now: u64, contest_id: i16) -> (r: Result<(), ContestError>)
        requires
            old(self).wf(),
        ensures
            final(self).wf(),
            match old(self).finalise_error(now, contest_id) {
                Some(e) => r == Err::<(), ContestError>(e) && *final(self) == *old(self),
                None => {
                    let (before, after) = (
                        old(self).contest(contest_id),
                        final(self).contest(contest_id),
                    );
                    let entries = tallies(before.submissions@);
                    &&& r is Ok
                    &&& old(self).others_kept(final(self), contest_id)
                    &&& same_settings(before, after)
                    &&& after.finalised
                    &&& exists|g: Seq<PrizeGroup>|
                        is_allocation(entries, before.min_art_vote, before.places, g)
                            && after.winners@ == payouts(
                            g,
                            paid_places(entries, before.min_art_vote, before.places) as u64,
                        )
                    &&& after.submissions == before.submissions
                    &&& after.art_voters_mapping == before.art_voters_mapping
                    &&& after.vote_record == before.vote_record
                    &&& after.blacklist == before.blacklist
                    &&& after.withdrawn_votes == before.withdrawn_votes
                },
            },
    {
        if self.paused {
            return Err(ContestError::Paused);
        }
        if contest_id < 1 || contest_id as usize > self.contests.len() {
            return Err(ContestError::ContestNotFound);
        }
        let idx = (contest_id - 1) as usize;
        if now < self.contests[idx].voting_end_time {
            return Err(ContestError::VotingOngoing);
        }
        if self.contests[idx].finalised {
            return Err(ContestError::AlreadyFinalised);
        }
        let ghost old_contests = self.contests@;
        let mut contest = self.contests.remove(idx);
        let ghost before = contest;
        assert(session_wf(before)) by { assert(before == old_contests[idx as int]); }
        let entries = vote_tallies(&contest.submissions);
        let p = count_paid_places(&entries, contest.min_art_vote, contest.places);
        let groups = allocate_prizes(&entries, contest.min_art_vote, contest.places);
        let winners = payouts_of(&groups, p);
        proof {
            lemma_tallies_distinct(before.submissions@);
            lemma_payouts_unique(entries@, contest.min_art_vote, groups@, p);
        }
        contest.winners = winners;
        contest.finalised = true;
        self.contests.insert(idx, contest);
        proof {
            assert(self.contests@ == old_contests.update(idx as int, contest));
            assert forall|i: int| 0 <= i < self.contests.len() implies session_wf(
                #[trigger] self.contests@[i],
            ) by {
                if i != idx {
                    assert(self.contests@[i] == old_contests[i]);
                }
            }
        }
        Ok(())
    }

    /// First step of attaching `proposal_id` to the payout of `winner`:
    /// checks that there is such a payout and returns the lookup of the DAO's
    /// policy. Nothing is written.
    pub fn set_payout_proposal_id(&self, contest_id: i16, winner: String, proposal_id: u64) -> (r:
        Result<PolicyLookup, ContestError>)
        requires
            self.wf(),
        ensures
            !self.has_contest(contest_id) ==> r == Err::<PolicyLookup, ContestError>(
                ContestError::ContestNotFound,
            ),
            self.has_contest(contest_id) && !has_key(self.contest(contest_id).winners@, winner@)
                ==> r == Err::<PolicyLookup, ContestError>(ContestError::WinnerNotFound),
            self.has_contest(contest_id) && has_key(self.contest(contest_id).winners@, winner@)
                ==> r == Ok::<PolicyLookup, ContestError>(
                PolicyLookup { dao_id: self.contest(contest_id).dao_id, winner, contest_id, proposal_id },
            ),
    {
        if contest_id < 1 || contest_id as usize > self.contests.len() {
            return Err(ContestError::ContestNotFound);
        }
        let contest = &self.contests[(contest_id - 1) as usize];
        if find_key(&contest.winners, &winner).is_none() {
            return Err(ContestError::WinnerNotFound);
        }
        Ok(PolicyLookup { dao_id: contest.dao_id.clone(), winner, contest_id, proposal_id })
    }

    /// Why `on_dao_policy_verified` refuses, if it does.
    pub open spec fn proposal_error(
        &self,
        signer: Seq<char>,
        balance: u128,
        policy: Policy,
        id: i16,
        winner: Seq<char>,
    ) -> Option<ContestError> {
        if self.paused {
            Some(ContestError::Paused)
        } else if !may_add_proposal(policy, signer, balance) {
            Some(ContestError::Unauthorized)
        } else if !self.has_contest(id) {
            Some(ContestError::ContestNotFound)
        } else if !has_key(self.contest(id).winners@, winner) {
            Some(ContestError::WinnerNotFound)
        } else {
            None
        }
    }

    /// Second step: `policy` is the DAO's policy and `signer_balance` the
    /// signer's balance with the DAO. Where a role of it that applies to
    /// `signer` grants adding a transfer proposal, `proposal_id` is attached to
    /// the payout of `winner`, replacing any earlier one.
    pub fn on_dao_policy_verified(
        &mut self,
        signer: &String,
        signer_balance: u128,
        policy: &Policy,
        winner: String,
        contest_id: i16,
        proposal_id: u64,
    ) -> (r: Result<(), ContestError>)
        requires
            old(self).wf(),
        ensures
            final(self).wf(),
            match old(self).proposal_error(signer@, signer_balance, *policy, contest_id, winner@) {
                Some(e) => r == Err::<(), ContestError>(e) && *final(self) == *old(self),
                None => {
                    let (before, after) = (
                        old(self).contest(contest_id),
                        final(self).contest(contest_id),
                    );
                    let p = key_pos(before.winners@, winner@);
                    &&& r is Ok
                    &&& old(self).others_kept(final(self), contest_id)
                    &&& same_settings(before, after)
                    &&& after.winners@ == before.winners@.update(
                        p,
                        (
                            before.winners@[p].0,
                            PayOutInfo { proposal_id: Some(proposal_id), ..before.winners@[p].1 },
                        ),
                    )
                    &&& after.submissions == before.submissions
                    &&& after.art_voters_mapping == before.art_voters_mapping
                    &&& after.vote_record == before.vote_record
                    &&& after.blacklist == before.blacklist
                    &&& after.finalised == before.finalised
                    &&& after.withdrawn_votes == before.withdrawn_votes
                },
            },
    {
        if self.paused {
            return Err(ContestError::Paused);
        }
        if !can_add_proposal(signer, signer_balance, policy) {
            return Err(ContestError::Unauthorized);
        }
        if contest_id < 1 || contest_id as usize > self.contests.len() {
            return Err(ContestError::ContestNotFound);
        }
        let idx = (contest_id - 1) as usize;
        let pos = match find_key(&self.contests[idx].winners, &winner) {
            None => {
                return Err(ContestError::WinnerNotFound);
            },
            Some(i) => i,
        };
        let ghost old_contests = self.contests@;
        let mut contest = self.contests.remove(idx);
        let ghost before = contest;
        proof {
            assert(before == old_contests[idx as int]);
            lemma_key_pos(before.winners@, winner@, pos as int);
        }
        let (w, mut info) = contest.winners.remove(pos);
        info.proposal_id = Some(proposal_id);
        contest.winners.insert(pos, (w, info));
        proof {
            assert(contest.winners@ == before.winners@.update(pos as int, (w, info)));
            lemma_update_keeps_unique(before.winners@, pos as int, (w, info));
        }
        self.contests.insert(idx, contest);
        proof {
            assert(self.contests@ == old_contests.update(idx as int, contest));
            assert forall|i: int| 0 <= i < self.contests.len() implies session_wf(
                #[trigger] self.contests@[i],
            ) by {
                if i != idx {
                    assert(self.contests@[i] == old_contests[i]);
                }
            }
        }
        Ok(())
    }

    /// Every contest with its id, in id order.
    pub fn get_contests(&self) -> (r: Vec<(i16, SerializeableContestSession)>)
        requires
            self.wf(),
        ensures
            r.len() == self.contests.len(),
            forall|i: int|
                0 <= i < r.len() ==> (#[trigger] r@[i]).0 == i + 1 && is_summary(
                    r@[i].1,
                    self.contests@[i],
                ),
    {
        let mut out: Vec<(i16, SerializeableContestSession)> = Vec::new();
        let mut i: usize = 0;
        while i < self.contests.len()
            invariant
                self.wf(),
                i <= self.contests.len(),
                out.len() == i,
                forall|j: int|
                    0 <= j < i ==> (#[trigger] out@[j]).0 == j + 1 && is_summary(
                        out@[j].1,
                        self.contests@[j],
                    ),
            decreases self.contests.len() - i,
        {
            out.push(((i + 1) as i16, summarize(&self.contests[i])));
            i = i + 1;
        }
        out
    }

    /// The contests created by `creator`, with their ids, in id order.
    pub fn get_contests_by_creator(&self, creator: &String) -> (r: Vec<
        (i16, SerializeableContestSession),
    >)
        requires
            self.wf(),
        ensures
            forall|j: int|
                0 <= j < r.len() ==> self.has_contest((#[trigger] r@[j]).0) && self.contest(
                    r@[j].0,
                ).creator@ == creator@ && is_summary(r@[j].1, self.contest(r@[j].0)),
            forall|a: int, b: int| 0 <= a < b < r.len() ==> r@[a].0 < r@[b].0,
            forall|id: i16|
                self.has_contest(id) && (#[trigger] self.contest(id)).creator@ == creator@
                    ==> exists|j: int| 0 <= j < r.len() && r@[j].0 == id,
    {
        let mut out: Vec<(i16, SerializeableContestSession)> = Vec::new();
        let mut i: usize = 0;
        while i < self.contests.len()
            invariant
                self.wf(),
                i <= self.contests.len(),
                forall|j: int|
                    0 <= j < out.len() ==> 1 <= (#[trigger] out@[j]).0 <= i && self.contest(
                        out@[j].0,
                    ).creator@ == creator@ && is_summary(out@[j].1, self.contest(out@[j].0)),
                forall|a: int, b: int| 0 <= a < b < out.len() ==> out@[a].0 < out@[b].0,
                forall|id: i16|
                    1 <= id <= i && (#[trigger] self.contest(id)).creator@ == creator@ ==> exists|
                        j: int,
                    | 0 <= j < out.len() && out@[j].0 == id,
            decreases self.contests.len() - i,
        {
            if self.contests[i].creator == *creator {
                let ghost before = out@;
                out.push(((i + 1) as i16, summarize(&self.contests[i])));
                proof {
                    assert forall|id: i16|
                        1 <= id <= i + 1 && (#[trigger] self.contest(id)).creator@ == creator@ implies exists|
                        j: int,
                    | 0 <= j < out.len() && out@[j].0 == id by {
                        if id <= i {
                            let j = choose|j: int| 0 <= j < before.len() && before[j].0 == id;
                            assert(out@[j] == before[j]);
                        } else {
                            assert(out@[before.len() as int].0 == id);
                        }
                    }
                }
            }
            i = i + 1;
        }
        out
    }

    /// How contest `contest_id` shows to readers.
    pub fn get_contest_detail(&self, contest_id: i16) -> (r: Result<
        SerializeableContestSession,
        ContestError,
    >)
        requires
            self.wf(),
        ensures
            !self.has_contest(contest_id) ==> r == Err::<SerializeableContestSession, ContestError>(
                ContestError::ContestNotFound,
            ),
            self.has_contest(contest_id) ==> r is Ok && is_summary(
                r->Ok_0,
                self.contest(contest_id),
            ),
    {
        if contest_id < 1 || contest_id as usize > self.contests.len() {
            return Err(ContestError::ContestNotFound);
        }
        Ok(summarize(&self.contests[(contest_id - 1) as usize]))
    }

    /// The entries of contest `contest_id`, with their owners, in order.
    pub fn get_contest_arts(&self, contest_id: i16) -> (r: Result<Vec<(String, Art)>, ContestError>)
        requires
            self.wf(),
        ensures
            !self.has_contest(contest_id) ==> r is Err && r->Err_0 == ContestError::ContestNotFound,
            self.has_contest(contest_id) ==> r is Ok && r->Ok_0@ == self.contest(contest_id).submissions@,
    {
        if contest_id < 1 || contest_id as usize > self.contests.len() {
            return Err(ContestError::ContestNotFound);
        }
        let subs = &self.contests[(contest_id - 1) as usize].submissions;
        let mut out: Vec<(String, Art)> = Vec::new();
        let mut i: usize = 0;
        while i < subs.len()
            invariant
                i <= subs.len(),
                out@ == subs@.subrange(0, i as int),
            decreases subs.len() - i,
        {
            out.push((subs[i].0.clone(), subs[i].1.duplicate()));
            i = i + 1;
        }
        Ok(out)
    }

    /// The entry of `artist` in contest `contest_id`.
    pub fn get_artist_art_vote(&self, contest_id: i16, artist: &String) -> (r: Result<Art, ContestError>)
        requires
            self.wf(),
        ensures
            !self.has_contest(contest_id) ==> r == Err::<Art, ContestError>(ContestError::ContestNotFound),
            self.has_contest(contest_id) && !has_key(self.contest(contest_id).submissions@, artist@)
                ==> r == Err::<Art, ContestError>(ContestError::ArtNotFound),
            self.has_contest(contest_id) && has_key(self.contest(contest_id).submissions@, artist@)
                ==> r == Ok::<Art, ContestError>(
                self.contest(contest_id).submissions@[key_pos(
                    self.contest(contest_id).submissions@,
                    artist@,
                )].1,
            ),
    {
        if contest_id < 1 || contest_id as usize > self.contests.len() {
            return Err(ContestError::ContestNotFound);
        }
        let contest = &self.contests[(contest_id - 1) as usize];
        match find_key(&contest.submissions, artist) {
            None => Err(ContestError::ArtNotFound),
            Some(i) => {
                proof {
                    assert(session_wf(*contest));
                    lemma_key_pos(contest.submissions@, artist@, i as int);
                }
                Ok(contest.submissions[i].1.duplicate())
            },
        }
    }

    /// Whether `user` has voted in contest `contest_id`.
    pub fn get_user_voted(&self, contest_id: i16, user: &String) -> (r: Result<bool, ContestError>)
        ensures
            !self.has_contest(contest_id) ==> r == Err::<bool, ContestError>(ContestError::ContestNotFound),
            self.has_contest(contest_id) ==> r == Ok::<bool, ContestError>(
                listed(self.contest(contest_id).vote_record@, user@),
            ),
    {
        if contest_id < 1 || contest_id as usize > self.contests.len() {
            return Err(ContestError::ContestNotFound);
        }
        Ok(is_listed(&self.contests[(contest_id - 1) as usize].vote_record, user))
    }

    /// Who voted for the entry of `artist`, in order; none where nobody did.
    pub fn get_specific_art_voters(&self, contest_id: i16, artist: &String) -> (r: Result<
        Vec<String>,
        ContestError,
    >)
        requires
            self.wf(),
        ensures
            !self.has_contest(contest_id) ==> r is Err && r->Err_0 == ContestError::ContestNotFound,
            self.has_contest(contest_id) ==> r is Ok && {
                let av = self.contest(contest_id).art_voters_mapping@;
                if has_key(av, artist@) {
                    r->Ok_0@ == av[key_pos(av, artist@)].1@
                } else {
                    r->Ok_0@.len() == 0
                }
            },
    {
        if contest_id < 1 || contest_id as usize > self.contests.len() {
            return Err(ContestError::ContestNotFound);
        }
        let contest = &self.contests[(contest_id - 1) as usize];
        match find_key(&contest.art_voters_mapping, artist) {
            None => Ok(Vec::new()),
            Some(i) => {
                proof {
                    assert(session_wf(*contest));
                    lemma_key_pos(contest.art_voters_mapping@, artist@, i as int);
                }
                Ok(copy_strings(&contest.art_voters_mapping[i].1))
            },
        }
    }

    /// Everyone who voted in contest `contest_id`, in order.
    pub fn get_all_user_voted(&self, contest_id: i16) -> (r: Result<Vec<String>, ContestError>)
        ensures
            !self.has_contest(contest_id) ==> r is Err && r->Err_0 == ContestError::ContestNotFound,
            self.has_contest(contest_id) ==> r is Ok && r->Ok_0@ == self.contest(contest_id).vote_record@,
    {
        if contest_id < 1 || contest_id as usize > self.contests.len() {
            return Err(ContestError::ContestNotFound);
        }
        Ok(copy_strings(&self.contests[(contest_id - 1) as usize].vote_record))
    }

    /// The payout of `winner` in contest `contest_id`.
    pub fn get_winner_payout_info(&self, contest_id: i16, winner: &String) -> (r: Result<
        PayOutInfo,
        ContestError,
    >)
        requires
            self.wf(),
        ensures
            !self.has_contest(contest_id) ==> r == Err::<PayOutInfo, ContestError>(
                ContestError::ContestNotFound,
            ),
            self.has_contest(contest_id) && !has_key(self.contest(contest_id).winners@, winner@)
                ==> r == Err::<PayOutInfo, ContestError>(ContestError::WinnerNotFound),
            self.has_contest(contest_id) && has_key(self.contest(contest_id).winners@, winner@)
                ==> r == Ok::<PayOutInfo, ContestError>(
                self.contest(contest_id).winners@[key_pos(
                    self.contest(contest_id).winners@,
                    winner@,
                )].1,
            ),
    {
        if contest_id < 1 || contest_id as usize > self.contests.len() {
            return Err(ContestError::ContestNotFound);
        }
        let contest = &self.contests[(contest_id - 1) as usize];
        match find_key(&contest.winners, winner) {
            None => Err(ContestError::WinnerNotFound),
            Some(i) => {
                proof {
                    assert(session_wf(*contest));
                    lemma_key_pos(contest.winners@, winner@, i as int);
                }
                Ok(contest.winners[i].1)
            },
        }
    }

    /// Bars `artist` from the contest for good and withdraws their entry; the
    /// administrator's action.
    pub fn admin_disqualify_artist(&mut self, caller: &String, contest_id: i16, artist: String) -> (r:
        Result<(), ContestError>)
        requires
            old(self).wf(),
        ensures
            final(self).wf(),
            caller@ != old(self).admin@ ==> r == Err::<(), ContestError>(ContestError::NotAdmin),
            caller@ == old(self).admin@ && old(self).paused ==> r == Err::<(), ContestError>(
                ContestError::Paused,
            ),
            caller@ == old(self).admin@ && !old(self).paused && !old(self).has_contest(contest_id)
                ==> r == Err::<(), ContestError>(ContestError::ContestNotFound),
            r.is_err() ==> *final(self) == *old(self),
            caller@ == old(self).admin@ && !old(self).paused && old(self).has_contest(contest_id)
                ==> {
                let (before, after) = (old(self).contest(contest_id), final(self).contest(contest_id));
                &&& r is Ok
                &&& old(self).others_kept(final(self), contest_id)
                &&& same_settings(before, after)
                &&& removed_key(before.submissions@, after.submissions@, artist@)
                &&& after.withdrawn_votes == before.withdrawn_votes + withdrawn(
                    before.submissions@,
                    artist@,
                )
                &&& listed(before.blacklist@, artist@) ==> after.blacklist == before.blacklist
                &&& !listed(before.blacklist@, artist@) ==> after.blacklist@ == before.blacklist@.push(artist)
                &&& after.art_voters_mapping == before.art_voters_mapping
                &&& after.vote_record == before.vote_record
                &&& after.winners == before.winners
                &&& after.finalised == before.finalised
            },
    {
        if *caller != self.admin {
            return Err(ContestError::NotAdmin);
        }
        if self.paused {
            return Err(ContestError::Paused);
        }
        if contest_id < 1 || contest_id as usize > self.contests.len() {
            return Err(ContestError::ContestNotFound);
        }
        let idx = (contest_id - 1) as usize;
        let ghost old_contests = self.contests@;
        let mut contest = self.contests.remove(idx);
        let ghost before = contest;
        assert(session_wf(before)) by { assert(before == old_contests[idx as int]); }
        remove_art(&mut contest, &artist);
        if !is_listed(&contest.blacklist, &artist) {
            contest.blacklist.push(artist);
        }
        proof {
            assert forall|j: int| 0 <= j < contest.submissions.len() implies !listed(
                contest.blacklist@,
                #[trigger] contest.submissions@[j].0@,
            ) by {
                let k = contest.submissions@[j].0@;
                assert(has_key(contest.submissions@, k));
                assert(has_key(before.submissions@, k));
                assert(!listed(before.blacklist@, k));
                if listed(contest.blacklist@, k) {
                    let b = choose|b: int| 0 <= b < contest.blacklist.len() && contest.blacklist@[b]@ == k;
                    if b < before.blacklist.len() {
                        assert(contest.blacklist@[b] == before.blacklist@[b]);
                    }
                }
            }
        }
        self.contests.insert(idx, contest);
        proof {
            assert(self.contests@ == old_contests.update(idx as int, contest));
            assert forall|i: int| 0 <= i < self.contests.len() implies session_wf(
                #[trigger] self.contests@[i],
            ) by {
                if i != idx {
                    assert(self.contests@[i] == old_contests[i]);
                }
            }
        }
        Ok(())
    }

    /// First step of a vote by `voter` at `now` for the entry of
    /// `submission_owner`: checks that the vote may be cast and returns the
    /// lookup of the entry's token. Nothing is written.
    pub fn vote(&self, voter: &String, now: u64, contest_id: i16, submission_owner: String) -> (r:
        Result<VoteLookup, ContestError>)
        requires
            self.wf(),
        ensures
            match self.vote_error(*voter, now, contest_id, submission_owner@) {
                Some(e) => r == Err::<VoteLookup, ContestError>(e),
                None => {
                    let subs = self.contest(contest_id).submissions@;
                    let art = subs[key_pos(subs, submission_owner@)].1;
                    r == Ok::<VoteLookup, ContestError>(
                        VoteLookup {
                            nft_contract_id: art.contract_id,
                            token_id: art.token_id,
                            submission_owner,
                            contest_id,
                        },
                    )
                },
            },
    {
        if self.paused {
            return Err(ContestError::Paused);
        }
        if contest_id < 1 || contest_id as usize > self.contests.len() {
            return Err(ContestError::ContestNotFound);
        }
        let contest = &self.contests[(contest_id - 1) as usize];
        if !(contest.voting_start_time <= now && now < contest.voting_end_time) {
            return Err(ContestError::VotingClosed);
        }
        if is_listed(&contest.blacklist, voter) {
            return Err(ContestError::Rejected(SubmissionError::Blacklisted));
        }
        if is_listed(&contest.vote_record, voter) {
            return Err(ContestError::Rejected(SubmissionError::DoubleVote(voter.clone())));
        }
        match find_key(&contest.submissions, &submission_owner) {
            None => Err(ContestError::ArtNotFound),
            Some(i) => {
                proof {
                    assert(session_wf(*contest));
                    lemma_key_pos(contest.submissions@, submission_owner@, i as int);
                }
                let art = &contest.submissions[i].1;
                Ok(
                    VoteLookup {
                        nft_contract_id: art.contract_id.clone(),
                        token_id: art.token_id.clone(),
                        submission_owner,
                        contest_id,
                    },
                )
            },
        }
    }

    /// Second step of a vote: `token` is what the token's contract reported for
    /// the entry. A barred `signer` is refused with nothing changed. Otherwise,
    /// where the entry's token has changed hands, the entry is withdrawn (its
    /// votes stay on record as withdrawn) and the vote refused; else the vote
    /// of `signer` is recorded once and counted on the entry.
    pub fn on_vote_verified(
        &mut self,
        signer: &String,
        token: &Token,
        submission_owner: String,
        contest_id: i16,
    ) -> (r: Result<(), ContestError>)
        requires
            old(self).wf(),
        ensures
            final(self).wf(),
            old(self).paused ==> r == Err::<(), ContestError>(ContestError::Paused),
            !old(self).paused && !old(self).has_contest(contest_id) ==> r == Err::<(), ContestError>(
                ContestError::ContestNotFound,
            ),
            !old(self).paused && old(self).has_contest(contest_id) && listed(
                old(self).contest(contest_id).blacklist@,
                signer@,
            ) ==> r == Err::<(), ContestError>(
                ContestError::Rejected(SubmissionError::Blacklisted),
            ),
            !old(self).paused && old(self).has_contest(contest_id) && !listed(
                old(self).contest(contest_id).blacklist@,
                signer@,
            ) && token.owner_id@ != submission_owner@ ==> {
                let (before, after) = (old(self).contest(contest_id), final(self).contest(contest_id));
                &&& r == Err::<(), ContestError>(ContestError::OwnershipLapsed)
                &&& old(self).others_kept(final(self), contest_id)
                &&& same_settings(before, after)
                &&& removed_key(before.submissions@, after.submissions@, submission_owner@)
                &&& after.withdrawn_votes == before.withdrawn_votes + withdrawn(
                    before.submissions@,
                    submission_owner@,
                )
                &&& after.art_voters_mapping == before.art_voters_mapping
                &&& after.vote_record == before.vote_record
                &&& after.winners == before.winners
                &&& after.blacklist == before.blacklist
                &&& after.finalised == before.finalised
            },
            !old(self).paused && old(self).has_contest(contest_id) && !listed(
                old(self).contest(contest_id).blacklist@,
                signer@,
            ) && token.owner_id@ == submission_owner@ ==> match old(self).count_error(
                *signer,
                contest_id,
                submission_owner@,
            ) {
                Some(e) => r == Err::<(), ContestError>(e),
                None => {
                    let (before, after) = (
                        old(self).contest(contest_id),
                        final(self).contest(contest_id),
                    );
                    let p = key_pos(before.submissions@, submission_owner@);
                    let art = before.submissions@[p].1;
                    &&& r is Ok
                    &&& old(self).others_kept(final(self), contest_id)
                    &&& same_settings(before, after)
                    &&& after.vote_record@ == before.vote_record@.push(*signer)
                    &&& after.submissions@ == before.submissions@.update(
                        p,
                        (before.submissions@[p].0, Art { votes: (art.votes + 1) as u32, ..art }),
                    )
                    &&& voters_added(
                        before.art_voters_mapping@,
                        after.art_voters_mapping@,
                        submission_owner,
                        *signer,
                    )
                    &&& after.winners == before.winners
                    &&& after.blacklist == before.blacklist
                    &&& after.finalised == before.finalised
                    &&& after.withdrawn_votes == before.withdrawn_votes
                },
            },
            r.is_err() && (old(self).paused || !old(self).has_contest(contest_id) || listed(
                old(self).contest(contest_id).blacklist@,
                signer@,
            ) || token.owner_id@ == submission_owner@) ==> *final(self) == *old(self),
    {
        if self.paused {
            return Err(ContestError::Paused);
        }
        if contest_id < 1 || contest_id as usize > self.contests.len() {
            return Err(ContestError::ContestNotFound);
        }
        let idx = (contest_id - 1) as usize;
        let ghost old_contests = self.contests@;
        if is_listed(&self.contests[idx].blacklist, signer) {
            return Err(ContestError::Rejected(SubmissionError::Blacklisted));
        }
        if token.owner_id != submission_owner {
            let mut contest = self.contests.remove(idx);
            let ghost before = contest;
            assert(session_wf(before)) by { assert(before == old_contests[idx as int]); }
            remove_art(&mut contest, &submission_owner);
            self.contests.insert(idx, contest);
            proof {
                assert(self.contests@ == old_contests.update(idx as int, contest));
                assert forall|i: int| 0 <= i < self.contests.len() implies session_wf(
                    #[trigger] self.contests@[i],
                ) by {
                    if i != idx {
                        assert(self.contests@[i] == old_contests[i]);
                    }
                }
            }
            return Err(ContestError::OwnershipLapsed);
        }
        if is_listed(&self.contests[idx].vote_record, signer) {
            return Err(ContestError::Rejected(SubmissionError::DoubleVote(signer.clone())));
        }
        let pos = match find_key(&self.contests[idx].submissions, &submission_owner) {
            None => {
                return Err(ContestError::ArtNotFound);
            },
            Some(i) => i,
        };
        proof {
            assert(session_wf(self.contests@[idx as int]));
            lemma_key_pos(self.contests@[idx as int].submissions@, submission_owner@, pos as int);
        }
        if self.contests[idx].submissions[pos].1.votes == u32::MAX {
            return Err(ContestError::VoteLimit);
        }
        let mut contest = self.contests.remove(idx);
        let ghost before = contest;
        assert(session_wf(before)) by { assert(before == old_contests[idx as int]); }
        contest.vote_record.push(signer.clone());
        let (owner, mut art) = contest.submissions.remove(pos);
        let ghost old_art = art;
        art.votes = art.votes + 1;
        contest.submissions.insert(pos, (owner, art));
        proof {
            assert(contest.submissions@ == before.submissions@.update(
                pos as int,
                (before.submissions@[pos as int].0, Art { votes: (old_art.votes + 1) as u32, ..old_art }),
            ));
            lemma_sum_update(
                before.submissions@,
                pos as int,
                (before.submissions@[pos as int].0, Art { votes: (old_art.votes + 1) as u32, ..old_art }),
            );
            lemma_update_keeps_unique(
                before.submissions@,
                pos as int,
                (before.submissions@[pos as int].0, Art { votes: (old_art.votes + 1) as u32, ..old_art }),
            );
        }
        add_voter(&mut contest.art_voters_mapping, submission_owner, signer.clone());
        proof {
            assert(no_dups(contest.vote_record@)) by {
                assert forall|i: int, j: int|
                    0 <= i < contest.vote_record.len() && 0 <= j < contest.vote_record.len() && i
                        != j implies contest.vote_record@[i]@ != contest.vote_record@[j]@ by {
                    if i < before.vote_record.len() && j < before.vote_record.len() {
                        assert(contest.vote_record@[i] == before.vote_record@[i]);
                        assert(contest.vote_record@[j] == before.vote_record@[j]);
                    } else if i < before.vote_record.len() {
                        assert(contest.vote_record@[i] == before.vote_record@[i]);
                    } else {
                        assert(contest.vote_record@[j] == before.vote_record@[j]);
                    }
                }
            }
            assert forall|j: int| 0 <= j < contest.submissions.len() implies !listed(
                contest.blacklist@,
                #[trigger] contest.submissions@[j].0@,
            ) by {
                assert(contest.submissions@[j].0 == before.submissions@[j].0);
            }
        }
        self.contests.insert(idx, contest);
        proof {
            assert(self.contests@ == old_contests.update(idx as int, contest));
            assert forall|i: int| 0 <= i < self.contests.len() implies session_wf(
                #[trigger] self.contests@[i],
            ) by {
                if i != idx {
                    assert(self.contests@[i] == old_contests[i]);
                }
            }
        }
        Ok(())
    }
}

/// `after` is `before` with `voter` added to the voters of `artist`: at the end
/// of their list, or in a new list where they had none.
pub open spec fn voters_added(
    before: Seq<(String, Vec<String>)>,
    after: Seq<(String, Vec<String>)>,
    artist: String,
    voter: String,
) -> bool {
    if has_key(before, artist@) {
        let p = key_pos(before, artist@);
        &&& after.len() == before.len()
        &&& forall|i: int| 0 <= i < before.len() && i != p ==> after[i] == before[i]
        &&& after[p].0 == before[p].0
        &&& after[p].1@ == before[p].1@.push(voter)
    } else {
        &&& after.drop_last() == before
        &&& after.len() == before.len() + 1
        &&& after.last().0 == artist
        &&& after.last().1@ == seq![voter]
    }
}

fn add_voter(voters: &mut Vec<(String, Vec<String>)>, artist: String, voter: String)
    requires
        keys_unique(old(voters)@),
    ensures
        keys_unique(final(voters)@),
        voters_added(old(voters)@, final(voters)@, artist, voter),
        sum_voters(final(voters)@) == sum_voters(old(voters)@) + 1,
{
    match find_key(voters, &artist) {
        Some(i) => {
            proof {
                lemma_key_pos(old(voters)@, artist@, i as int);
            }
            let (k, mut list) = voters.remove(i);
            list.push(voter);
            voters.insert(i, (k, list));
            proof {
                assert(voters@ == old(voters)@.update(i as int, (k, list)));
                lemma_update_keeps_unique(old(voters)@, i as int, (k, list));
                lemma_sum_voters_update(old(voters)@, i as int, (k, list));
            }
        },
        None => {
            let mut list: Vec<String> = Vec::new();
            list.push(voter);
            let ghost e = (artist, list);
            voters.push((artist, list));
            proof {
                assert(list@ == seq![voter]);
                assert(voters@.drop_last() == old(voters)@);
                lemma_push_keeps_unique(old(voters)@, e);
            }
        },
    }
}

/// Withdraws the entry of `artist`, if there is one.
fn remove_art(contest: &mut ContestSession, artist: &String)
    requires
        session_wf(*old(contest)),
    ensures
        removed_key(old(contest).submissions@, final(contest).submissions@, artist@),
        !has_key(final(contest).submissions@, artist@),
        forall|k: Seq<char>| has_key(final(contest).submissions@, k) ==> has_key(old(contest).submissions@, k),
        keys_unique(final(contest).submissions@),
        session_wf(*final(contest)),
        same_settings(*old(contest), *final(contest)),
        final(contest).art_voters_mapping == old(contest).art_voters_mapping,
        final(contest).vote_record == old(contest).vote_record,
        final(contest).winners == old(contest).winners,
        final(contest).blacklist == old(contest).blacklist,
        final(contest).finalised == old(contest).finalised,
        final(contest).withdrawn_votes == old(contest).withdrawn_votes + withdrawn(
            old(contest).submissions@,
            artist@,
        ),
{
    match find_key(&contest.submissions, artist) {
        Some(i) => {
            proof {
                lemma_key_pos(old(contest).submissions@, artist@, i as int);
                lemma_sum_remove(old(contest).submissions@, i as int);
                lemma_sum_nonneg(contest.submissions@.remove(i as int));
            }
            let recorded = contest.vote_record.len();
            let (_, art) = contest.submissions.remove(i);
            contest.withdrawn_votes = contest.withdrawn_votes + art.votes as usize;
            assert(contest.withdrawn_votes <= recorded);
            proof {
                lemma_remove_key(old(contest).submissions@, artist@, i as int);
            }
        },
        None => {},
    }
    proof {
        let (b, a) = (old(contest).submissions@, contest.submissions@);
        assert forall|j: int| 0 <= j < a.len() implies !listed(contest.blacklist@, #[trigger] a[j].0@) by {
            assert(has_key(a, a[j].0@));
            let i = choose|i: int| 0 <= i < b.len() && b[i].0@ == a[j].0@;
            assert(!listed(old(contest).blacklist@, b[i].0@));
        }
    }
}

/// Removing the pair keyed by `k` keeps the keys distinct and leaves only keys
/// that were there.
proof fn lemma_remove_key<V>(s: Seq<(String, V)>, k: Seq<char>, p: int)
    requires
        keys_unique(s),
        0 <= p < s.len(),
        s[p].0@ == k,
    ensures
        keys_unique(s.remove(p)),
        !has_key(s.remove(p), k),
        forall|x: Seq<char>| has_key(s.remove(p), x) ==> has_key(s, x),
{
    let t = s.remove(p);
    assert forall|i: int| 0 <= i < t.len() implies t[i] == s[if i < p { i } else { i + 1 }] by {}
    assert forall|x: Seq<char>| has_key(t, x) implies has_key(s, x) by {
        let i = choose|i: int| 0 <= i < t.len() && t[i].0@ == x;
        assert(t[i] == s[if i < p { i } else { i + 1 }]);
    }
    if has_key(t, k) {
        let i = choose|i: int| 0 <= i < t.len() && t[i].0@ == k;
        assert(t[i] == s[if i < p { i } else { i + 1 }]);
    }
    assert forall|i: int, j: int| 0 <= i < t.len() && 0 <= j < t.len() && i != j implies t[i].0@
        != t[j].0@ by {
        assert(t[i] == s[if i < p { i } else { i + 1 }]);
        assert(t[j] == s[if j < p { j } else { j + 1 }]);
    }
}

/// Replacing a pair by one with the same key keeps the keys distinct.
proof fn lemma_update_keeps_unique<V>(s: Seq<(String, V)>, p: int, e: (String, V))
    requires
        keys_unique(s),
        0 <= p < s.len(),
        e.0@ == s[p].0@,
    ensures
        keys_unique(s.update(p, e)),
{
}

/// Changing one list of voters changes the total by as much.
proof fn lemma_sum_voters_update(s: Seq<(String, Vec<String>)>, p: int, e: (String, Vec<String>))
    requires
        0 <= p < s.len(),
    ensures
        sum_voters(s.update(p, e)) == sum_voters(s) - s[p].1.len() + e.1.len(),
    decreases s.len(),
{
    let t = s.update(p, e);
    if p == s.len() - 1 {
        assert(t.drop_last() == s.drop_last());
    } else {
        assert(t.drop_last() == s.drop_last().update(p, e));
        lemma_sum_voters_update(s.drop_last(), p, e);
    }
}

/// The votes an entry holds, or none where `k` has no entry.
pub open spec fn withdrawn(s: Seq<(String, Art)>, k: Seq<char>) -> int {
    if has_key(s, k) {
        s[key_pos(s, k)].1.votes as int
    } else {
        0
    }
}

proof fn lemma_sum_nonneg(s: Seq<(String, Art)>)
    ensures
        sum_votes(s) >= 0,
    decreases s.len(),
{
    if s.len() > 0 {
        lemma_sum_nonneg(s.drop_last());
    }
}

/// Removing an entry takes its votes off the sum.
proof fn lemma_sum_remove(s: Seq<(String, Art)>, p: int)
    requires
        0 <= p < s.len(),
    ensures
        sum_votes(s.remove(p)) == sum_votes(s) - s[p].1.votes,
    decreases s.len(),
{
    let t = s.remove(p);
    if p == s.len() - 1 {
        assert(t == s.drop_last());
    } else {
        assert(t.drop_last() == s.drop_last().remove(p));
        assert(t.last() == s.last());
        lemma_sum_remove(s.drop_last(), p);
    }
}

/// Changing the votes of one entry changes the sum by as much.
proof fn lemma_sum_update(s: Seq<(String, Art)>, p: int, e: (String, Art))
    requires
        0 <= p < s.len(),
    ensures
        sum_votes(s.update(p, e)) == sum_votes(s) - s[p].1.votes + e.1.votes,
    decreases s.len(),
{
    let t = s.update(p, e);
    if p == s.len() - 1 {
        assert(t.drop_last() == s.drop_last());
    } else {
        assert(t.drop_last() == s.drop_last().update(p, e));
        lemma_sum_update(s.drop_last(), p, e);
    }
}

/// How a contest shows to readers.
fn summarize(s: &ContestSession) -> (r: SerializeableContestSession)
    ensures
        is_summary(r, *s),
{
    let mut winners: Vec<String> = Vec::new();
    let mut i: usize = 0;
    while i < s.winners.len()
        invariant
            i <= s.winners.len(),
            winners.len() == i,
            forall|j: int| 0 <= j < i ==> winners@[j] == s.winners@[j].0,
        decreases s.winners.len() - i,
    {
        winners.push(s.winners[i].0.clone());
        i = i + 1;
    }
    assert(winners@ =~= s.winners@.map_values(|e: (String, PayOutInfo)| e.0));
    SerializeableContestSession {
        submission_start_time: s.submission_start_time,
        submission_end_time: s.submission_end_time,
        voting_start_time: s.voting_start_time,
        voting_end_time: s.voting_end_time,
        title: s.title.clone(),
        description: s.description.clone(),
        dao_id: s.dao_id.clone(),
        prize: s.prize,
        places: s.places,
        logo_url: s.logo_url.clone(),
        submissions: s.submissions.len() as u64,
        winners,
        creator: s.creator.clone(),
    }
}

/// The entries as (owner, votes).
fn vote_tallies(subs: &Vec<(String, Art)>) -> (r: Vec<(String, u32)>)
    ensures
        r@ == tallies(subs@),
{
    let mut out: Vec<(String, u32)> = Vec::new();
    let mut i: usize = 0;
    while i < subs.len()
        invariant
            i <= subs.len(),
            out.len() == i,
            forall|j: int| 0 <= j < i ==> out@[j] == (subs@[j].0, subs@[j].1.votes),
        decreases subs.len() - i,
    {
        out.push((subs[i].0.clone(), subs[i].1.votes));
        i = i + 1;
    }
    assert(out@ =~= tallies(subs@));
    out
}

fn count_paid_places(entries: &Vec<(String, u32)>, min_art_vote: i16, places: i16) -> (r: u64)
    ensures
        r == paid_places(entries@, min_art_vote, places),
{
    let count = count_qualifying(entries, min_art_vote);
    if places <= 0 {
        0
    } else if (places as usize) < count {
        places as u64
    } else {
        count as u64
    }
}

/// One payout for each member of each group, group after group.
fn payouts_of(groups: &Vec<PrizeGroup>, places_paid: u64) -> (r: Vec<(String, PayOutInfo)>)
    ensures
        r@ == payouts(groups@, places_paid),
{
    let mut out: Vec<(String, PayOutInfo)> = Vec::new();
    let mut k: usize = 0;
    while k < groups.len()
        invariant
            k <= groups.len(),
            out@ == payouts(groups@.subrange(0, k as int), places_paid),
        decreases groups.len() - k,
    {
        let g = &groups[k];
        let ghost start = out@;
        let mut j: usize = 0;
        while j < g.members.len()
            invariant
                j <= g.members.len(),
                *g == groups@[k as int],
                out@ == start + group_payouts(*g, places_paid).subrange(0, j as int),
            decreases g.members.len() - j,
        {
            let info = PayOutInfo {
                places_won: g.places_won,
                places_paid,
                group_size: g.members.len() as u64,
                proposal_id: None,
            };
            out.push((g.members[j].clone(), info));
            assert(group_payouts(*g, places_paid).subrange(0, j + 1) == group_payouts(
                *g,
                places_paid,
            ).subrange(0, j as int).push((g.members@[j as int], info)));
            j = j + 1;
        }
        assert(group_payouts(*g, places_paid).subrange(0, j as int) == group_payouts(*g, places_paid));
        assert(groups@.subrange(0, k + 1).drop_last() == groups@.subrange(0, k as int));
        k = k + 1;
    }
    assert(groups@.subrange(0, groups.len() as int) == groups@);
    out
}

/// Owners in the tallies are as distinct as the keys of the entries.
proof fn lemma_tallies_distinct(s: Seq<(String, Art)>)
    requires
        keys_unique(s),
    ensures
        keys_unique(tallies(s)),
{
}

/// Each owner tied at `v` owns an entry with `v` votes.
proof fn lemma_tied_member(s: Seq<(String, u32)>, min_art_vote: i16, v: u32, j: int)
    requires
        0 <= j < tied_at(s, min_art_vote, v).len(),
    ensures
        exists|i: int|
            0 <= i < s.len() && s[i].0@ == tied_at(s, min_art_vote, v)[j] && s[i].1 == v,
    decreases s.len(),
{
    let t = s.drop_last();
    if j < tied_at(t, min_art_vote, v).len() {
        lemma_tied_member(t, min_art_vote, v, j);
        let i = choose|i: int|
            0 <= i < t.len() && t[i].0@ == tied_at(t, min_art_vote, v)[j] && t[i].1 == v;
        assert(s[i] == t[i]);
    } else {
        assert(s[s.len() - 1].0@ == tied_at(s, min_art_vote, v)[j]);
    }
}

/// With distinct owners, no owner is tied twice.
proof fn lemma_tied_distinct(s: Seq<(String, u32)>, min_art_vote: i16, v: u32)
    requires
        keys_unique(s),
    ensures
        forall|a: int, b: int|
            0 <= a < b < tied_at(s, min_art_vote, v).len() ==> tied_at(s, min_art_vote, v)[a]
                != tied_at(s, min_art_vote, v)[b],
    decreases s.len(),
{
    if s.len() > 0 {
        let t = s.drop_last();
        assert(keys_unique(t)) by {
            assert forall|i: int, j: int| 0 <= i < t.len() && 0 <= j < t.len() && i != j implies t[i].0@
                != t[j].0@ by {
                assert(t[i] == s[i] && t[j] == s[j]);
            }
        }
        lemma_tied_distinct(t, min_art_vote, v);
        let rt = tied_at(t, min_art_vote, v);
        let rs = tied_at(s, min_art_vote, v);
        if rs.len() > rt.len() {
            assert forall|a: int| 0 <= a < rt.len() implies rt[a] != s.last().0@ by {
                lemma_tied_member(t, min_art_vote, v, a);
                let i = choose|i: int| 0 <= i < t.len() && t[i].0@ == rt[a] && t[i].1 == v;
                assert(t[i] == s[i]);
            }
            assert forall|a: int, b: int| 0 <= a < b < rs.len() implies rs[a] != rs[b] by {
                if b < rt.len() {
                    assert(rs[a] == rt[a] && rs[b] == rt[b]);
                } else {
                    assert(rs[a] == rt[a]);
                }
            }
        }
    }
}

/// Each payout goes to a member of some group.
proof fn lemma_payout_member(groups: Seq<PrizeGroup>, places_paid: u64, q: int)
    requires
        0 <= q < payouts(groups, places_paid).len(),
    ensures
        exists|k: int, j: int|
            0 <= k < groups.len() && 0 <= j < groups[k].members.len()
                && payouts(groups, places_paid)[q].0 == groups[k].members@[j],
    decreases groups.len(),
{
    let front = payouts(groups.drop_last(), places_paid);
    if q < front.len() {
        lemma_payout_member(groups.drop_last(), places_paid, q);
        let (k, j) = choose|k: int, j: int|
            0 <= k < groups.drop_last().len() && 0 <= j < groups.drop_last()[k].members.len()
                && front[q].0 == groups.drop_last()[k].members@[j];
        assert(groups[k] == groups.drop_last()[k]);
    } else {
        let j = q - front.len();
        assert(payouts(groups, places_paid)[q].0 == groups.last().members@[j]);
    }
}

/// Groups of distinct vote counts over distinct owners give distinct winners.
proof fn lemma_payouts_unique(
    entries: Seq<(String, u32)>,
    min_art_vote: i16,
    groups: Seq<PrizeGroup>,
    places_paid: u64,
)
    requires
        keys_unique(entries),
        forall|k: int|
            0 <= k < groups.len() ==> member_views(#[trigger] groups[k]) == tied_at(
                entries,
                min_art_vote,
                groups[k].votes,
            ),
        forall|j: int, k: int| 0 <= j < k < groups.len() ==> groups[j].votes > groups[k].votes,
    ensures
        keys_unique(payouts(groups, places_paid)),
    decreases groups.len(),
{
    if groups.len() > 0 {
        let fg = groups.drop_last();
        assert forall|k: int| 0 <= k < fg.len() implies fg[k] == groups[k] by {}
        lemma_payouts_unique(entries, min_art_vote, fg, places_paid);
        let g = groups.last();
        let front = payouts(fg, places_paid);
        let last = group_payouts(g, places_paid);
        let all = payouts(groups, places_paid);
        assert(all == front + last);
        let tied = tied_at(entries, min_art_vote, g.votes);
        assert(member_views(groups[groups.len() - 1]) == tied);
        lemma_tied_distinct(entries, min_art_vote, g.votes);
        assert forall|a: int| 0 <= a < last.len() implies last[a].0@ == tied[a] by {
            assert(member_views(g)[a] == g.members@[a]@);
        }
        assert forall|q: int, a: int| 0 <= q < front.len() && 0 <= a < last.len() implies front[q].0@
            != last[a].0@ by {
            lemma_payout_member(fg, places_paid, q);
            let (k, jj) = choose|k: int, jj: int|
                0 <= k < fg.len() && 0 <= jj < fg[k].members.len() && front[q].0
                    == fg[k].members@[jj];
            let tk = tied_at(entries, min_art_vote, groups[k].votes);
            assert(member_views(groups[k])[jj] == groups[k].members@[jj]@);
            assert(front[q].0@ == tk[jj]);
            lemma_tied_member(entries, min_art_vote, groups[k].votes, jj);
            lemma_tied_member(entries, min_art_vote, g.votes, a);
            let i1 = choose|i: int|
                0 <= i < entries.len() && entries[i].0@ == tk[jj] && entries[i].1 == groups[k].votes;
            let i2 = choose|i: int|
                0 <= i < entries.len() && entries[i].0@ == tied[a] && entries[i].1 == g.votes;
            if front[q].0@ == last[a].0@ {
                assert(i1 == i2);
                assert(groups[k].votes > groups[groups.len() - 1].votes);
            }
        }
        assert forall|i: int, j: int| 0 <= i < all.len() && 0 <= j < all.len() && i != j implies all[i].0@
            != all[j].0@ by {
            if i < front.len() && j < front.len() {
                assert(all[i] == front[i] && all[j] == front[j]);
            } else if i < front.len() {
                assert(all[i] == front[i] && all[j] == last[j - front.len()]);
            } else if j < front.len() {
                assert(all[j] == front[j] && all[i] == last[i - front.len()]);
            } else {
                assert(all[i] == last[i - front.len()] && all[j] == last[j - front.len()]);
                if i - front.len() < j - front.len() {
                    assert(tied[i - front.len()] != tied[j - front.len()]);
                } else {
                    assert(tied[j - front.len()] != tied[i - front.len()]);
                }
            }
        }
    }
}

/// No account holds two entries in a contest: there are as many entries as
/// accounts holding one.
pub proof fn one_entry_per_account(c: &ContestContract, id: i16)
    requires
        c.wf(),
        c.has_contest(id),
    ensures
        c.contest(id).submissions@.map_values(|e: (String, Art)| e.0@).to_set().len()
            == c.contest(id).submissions.len(),
{
    let s = c.contest(id);
    assert(session_wf(c.contests@[id - 1]));
    let owners = s.submissions@.map_values(|e: (String, Art)| e.0@);
    assert(owners.no_duplicates());
    owners.unique_seq_to_set();
}

/// No account is recorded twice as a voter in a contest, each recorded vote is
/// listed under exactly one artist, and the recorded votes are those counted on
/// the entries plus those of entries since withdrawn: while no entry holding
/// votes has been withdrawn, the entries' votes add up to the recorded votes.
pub proof fn one_vote_per_account(c: &ContestContract, id: i16)
    requires
        c.wf(),
        c.has_contest(id),
    ensures
        c.contest(id).vote_record@.map_values(|v: String| v@).to_set().len()
            == c.contest(id).vote_record.len(),
        c.contest(id).vote_record.len() == sum_voters(c.contest(id).art_voters_mapping@),
        c.contest(id).vote_record.len() == sum_votes(c.contest(id).submissions@) + c.contest(
            id,
        ).withdrawn_votes,
        c.contest(id).withdrawn_votes == 0 ==> c.contest(id).vote_record.len() == sum_votes(
            c.contest(id).submissions@,
        ),
{
    let s = c.contest(id);
    assert(session_wf(c.contests@[id - 1]));
    let voters = s.vote_record@.map_values(|v: String| v@);
    assert(voters.no_duplicates());
    voters.unique_seq_to_set();
}

/// A barred account can neither enter nor vote in the contest: each step of
/// both flows refuses it, and the steps that write leave the contest as it was.
pub proof fn barred_account_is_refused(
    c: &ContestContract,
    account: String,
    now: u64,
    id: i16,
    owner: Seq<char>,
)
    requires
        c.has_contest(id),
        listed(c.contest(id).blacklist@, account@),
    ensures
        c.submit_error(account@, now, id) is Some,
        c.accept_error(account@, account@, id) is Some,
        c.vote_error(account, now, id, owner) is Some,
        c.count_error(account, id, owner) is Some,
{
}

/// A contest is finalised at most once, and not before its voting window has
/// closed.
pub proof fn finalised_at_most_once(c: &ContestContract, now: u64, id: i16)
    requires
        c.has_contest(id),
        c.contest(id).finalised || now < c.contest(id).voting_end_time,
    ensures
        c.finalise_error(now, id) is Some,
{
}

/// What a new contest shows to readers is what it was created with, with no
/// entries and no winners.
pub proof fn new_contest_reads_back(
    s: ContestSession,
    r: SerializeableContestSession,
    creator: String,
    title: String,
    description: String,
    dao_id: String,
    logo_url: String,
    submission_start_time: u64,
    submission_end_time: u64,
    voting_start_time: u64,
    voting_end_time: u64,
    prize: u128,
    places: i16,
    quorum: i16,
    min_art_vote: i16,
)
    requires
        fresh_session(
            s,
            creator,
            title,
            description,
            dao_id,
            logo_url,
            submission_start_time,
            submission_end_time,
            voting_start_time,
            voting_end_time,
            prize,
            places,
            quorum,
            min_art_vote,
        ),
        is_summary(r, s),
    ensures
        r.title == title,
        r.description == description,
        r.dao_id == dao_id,
        r.logo_url == logo_url,
        r.creator == creator,
        r.submission_start_time == submission_start_time,
        r.submission_end_time == submission_end_time,
        r.voting_start_time == voting_start_time,
        r.voting_end_time == voting_end_time,
        r.prize == prize,
        r.places == places,
        r.submissions == 0,
        r.winners.len() == 0,
{
}

/// What a payout pays out of `prize`, rounded down as `PayOutInfo::amount` does.
pub open spec fn amount_of(info: PayOutInfo, prize: u128) -> int {
    let d = info.places_paid as int * info.group_size as int;
    if d == 0 {
        0
    } else {
        prize as int * info.places_won as int / d
    }
}

/// The amounts of a list of payouts added up.
pub open spec fn total_amount(ps: Seq<(String, PayOutInfo)>, prize: u128) -> int
    decreases ps.len(),
{
    if ps.len() == 0 {
        0
    } else {
        total_amount(ps.drop_last(), prize) + amount_of(ps.last().1, prize)
    }
}

proof fn lemma_total_concat(a: Seq<(String, PayOutInfo)>, b: Seq<(String, PayOutInfo)>, prize: u128)
    ensures
        total_amount(a + b, prize) == total_amount(a, prize) + total_amount(b, prize),
    decreases b.len(),
{
    if b.len() == 0 {
        assert(a + b == a);
    } else {
        assert((a + b).drop_last() == a + b.drop_last());
        lemma_total_concat(a, b.drop_last(), prize);
    }
}

/// Payouts that all carry the same terms pay that amount once each.
proof fn lemma_total_same(ps: Seq<(String, PayOutInfo)>, info: PayOutInfo, prize: u128)
    requires
        forall|i: int| 0 <= i < ps.len() ==> (#[trigger] ps[i]).1 == info,
    ensures
        total_amount(ps, prize) == ps.len() * amount_of(info, prize),
    decreases ps.len(),
{
    if ps.len() > 0 {
        let t = ps.drop_last();
        assert forall|i: int| 0 <= i < t.len() implies (#[trigger] t[i]).1 == info by {
            assert(t[i] == ps[i]);
        }
        lemma_total_same(t, info, prize);
        assert(ps.last().1 == info);
        assert(ps.len() * amount_of(info, prize) == t.len() * amount_of(info, prize) + amount_of(
            info,
            prize,
        )) by (nonlinear_arith)
            requires
                ps.len() == t.len() + 1,
        ;
    }
}

/// `size` shares of `x / (p * size)` are at most `x / p`.
proof fn lemma_split_share(x: int, p: int, size: int)
    requires
        x >= 0,
        p >= 1,
        size >= 1,
    ensures
        size * (x / (p * size)) <= x / p,
{
    let q = x / (p * size);
    assert(p * size >= 1) by (nonlinear_arith)
        requires
            p >= 1,
            size >= 1,
    ;
    lemma_fundamental_div_mod(x, p * size);
    assert(x % (p * size) >= 0) by {
        lemma_mod_bound(x, p * size);
    }
    assert(q >= 0) by {
        lemma_div_pos_is_pos(x, p * size);
    }
    assert((q * size) * p <= x) by (nonlinear_arith)
        requires
            x == (p * size) * q + x % (p * size),
            x % (p * size) >= 0,
    ;
    assert(q * size >= 0) by (nonlinear_arith)
        requires
            q >= 0,
            size >= 1,
    ;
    lemma_div_is_ordered((q * size) * p, x, p);
    lemma_div_by_multiple(q * size, p);
    assert(size * q == q * size) by (nonlinear_arith);
}

/// Rounding down each part never gives more than rounding down the whole.
proof fn lemma_floor_sum(a: int, b: int, p: int)
    requires
        a >= 0,
        b >= 0,
        p >= 1,
    ensures
        a / p + b / p <= (a + b) / p,
{
    lemma_fundamental_div_mod(a, p);
    lemma_fundamental_div_mod(b, p);
    lemma_mod_bound(a, p);
    lemma_mod_bound(b, p);
    assert((a / p + b / p) * p <= a + b) by (nonlinear_arith)
        requires
            a == p * (a / p) + a % p,
            b == p * (b / p) + b % p,
            a % p >= 0,
            b % p >= 0,
    ;
    lemma_div_pos_is_pos(a, p);
    lemma_div_pos_is_pos(b, p);
    lemma_div_is_ordered((a / p + b / p) * p, a + b, p);
    lemma_div_by_multiple(a / p + b / p, p);
}

proof fn lemma_total_payouts(groups: Seq<PrizeGroup>, places_paid: u64, prize: u128)
    requires
        places_paid >= 1,
        forall|k: int|
            0 <= k < groups.len() ==> 1 <= (#[trigger] groups[k]).members.len()
                <= 0xffff_ffff_ffff_ffff,
    ensures
        total_amount(payouts(groups, places_paid), prize) <= prize as int * sum_places_won(
            groups,
        ) / places_paid as int,
        sum_places_won(groups) >= 0,
    decreases groups.len(),
{
    let p = places_paid as int;
    if groups.len() == 0 {
        assert(prize as int * 0 == 0);
    } else {
        let front = groups.drop_last();
        let g = groups.last();
        assert forall|k: int| 0 <= k < front.len() implies 1 <= (#[trigger] front[k]).members.len()
            <= 0xffff_ffff_ffff_ffff by {
            assert(front[k] == groups[k]);
        }
        lemma_total_payouts(front, places_paid, prize);
        assert(g == groups[groups.len() - 1]);
        let size = g.members.len() as int;
        let info = PayOutInfo {
            places_won: g.places_won,
            places_paid,
            group_size: g.members.len() as u64,
            proposal_id: None,
        };
        let gp = group_payouts(g, places_paid);
        lemma_total_same(gp, info, prize);
        lemma_total_concat(payouts(front, places_paid), gp, prize);
        let w = g.places_won as int;
        let sw = sum_places_won(front);
        assert(prize as int * w >= 0) by (nonlinear_arith)
            requires
                w >= 0,
        ;
        assert(prize as int * sw >= 0) by (nonlinear_arith)
            requires
                sw >= 0,
        ;
        lemma_split_share(prize as int * w, p, size);
        lemma_floor_sum(prize as int * sw, prize as int * w, p);
        assert(prize as int * sw + prize as int * w == prize as int * (sw + w)) by (nonlinear_arith);
    }
}

/// The amounts paid to the winners of an allocation, each rounded down, never
/// add up to more than the prize; with no place paid there are no winners.
pub proof fn payouts_within_prize(
    entries: Seq<(String, u32)>,
    min_art_vote: i16,
    places: i16,
    groups: Seq<PrizeGroup>,
    prize: u128,
)
    requires
        is_allocation(entries, min_art_vote, places, groups),
    ensures
        total_amount(
            payouts(groups, paid_places(entries, min_art_vote, places) as u64),
            prize,
        ) <= prize,
        paid_places(entries, min_art_vote, places) == 0 ==> payouts(
            groups,
            paid_places(entries, min_art_vote, places) as u64,
        ).len() == 0,
{
    let p = paid_places(entries, min_art_vote, places);
    crate::allocation::prize_is_shared_whole(entries, min_art_vote, places, groups);
    if p == 0 {
        if groups.len() > 0 {
            assert(count_above(entries, min_art_vote, groups[0].votes as int) < 0);
        }
    } else {
        lemma_tied_len(entries, min_art_vote, groups);
        lemma_total_payouts(groups, p as u64, prize);
        lemma_div_by_multiple(prize as int, p);
        assert(prize as int * p == p * prize as int) by (nonlinear_arith);
    }
}

/// Every group of an allocation has between one and as many members as entries.
proof fn lemma_tied_len(entries: Seq<(String, u32)>, min_art_vote: i16, groups: Seq<PrizeGroup>)
    requires
        forall|k: int|
            0 <= k < groups.len() ==> member_views(#[trigger] groups[k]) == tied_at(
                entries,
                min_art_vote,
                groups[k].votes,
            ),
        forall|k: int| 0 <= k < groups.len() ==> (#[trigger] groups[k]).members.len() > 0,
    ensures
        forall|k: int|
            0 <= k < groups.len() ==> 1 <= (#[trigger] groups[k]).members.len()
                <= 0xffff_ffff_ffff_ffff,
{
    assert forall|k: int| 0 <= k < groups.len() implies 1 <= (#[trigger] groups[k]).members.len()
        <= 0xffff_ffff_ffff_ffff by {
        assert(member_views(groups[k]).len() == groups[k].members.len());
    }
}

/// Adding a pair under a new key keeps the keys distinct.
proof fn lemma_push_keeps_unique<V>(s: Seq<(String, V)>, e: (String, V))
    requires
        keys_unique(s),
        !has_key(s, e.0@),
    ensures
        keys_unique(s.push(e)),
{
    let t = s.push(e);
    assert forall|i: int, j: int| 0 <= i < t.len() && 0 <= j < t.len() && i != j implies t[i].0@
        != t[j].0@ by {
        if i < s.len() && j < s.len() {
            assert(t[i] == s[i] && t[j] == s[j]);
        } else if i < s.len() {
            assert(t[i] == s[i]);
        } else {
            assert(t[j] == s[j]);
        }
    }
}

} // verus!
