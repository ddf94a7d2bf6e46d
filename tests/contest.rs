use contest_contract::allocation::allocate_prizes;
use contest_contract::contract::{ContestContract, PolicyLookup, SubmissionLookup, VoteLookup};
use contest_contract::errors::{ContestError, RevokeSubmissionError, SubmissionError};
use contest_contract::ext::{Token, TokenMetadataCompliant};
use contest_contract::permission::{can_add_proposal, get_user_roles, match_user};
use contest_contract::storage::{
    PayOutInfo, Policy, RoleKind, RolePermission, VotePolicy, WeightKind, WeightOrRatio,
};

const PRIZE: u128 = 1_200;

fn s(x: &str) -> String {
    x.to_string()
}

fn metadata(title: Option<&str>, media: Option<&str>) -> TokenMetadataCompliant {
    TokenMetadataCompliant {
        title: title.map(s),
        description: None,
        media: media.map(s),
        media_hash: None,
        copies: None,
        issued_at: None,
        expires_at: None,
        starts_at: None,
        updated_at: None,
        extra: None,
        reference: None,
        reference_hash: None,
    }
}

fn token(owner: &str, id: &str) -> Token {
    Token {
        token_id: s(id),
        owner_id: s(owner),
        metadata: metadata(Some("Sunset"), Some("ipfs://sunset")),
        approved_account_ids: vec![],
        royalty: vec![],
    }
}

fn registry() -> ContestContract {
    ContestContract::new(s("registry.near"), s("admin.near"))
}

/// Entries in [100, 200), votes in [200, 300).
fn create(c: &mut ContestContract, places: i16, min_art_vote: i16) -> i16 {
    c.create_contest(
        s("creator.near"),
        s("Art contest"),
        s("Paint the sea"),
        s("dao.near"),
        s("ipfs://logo"),
        100,
        200,
        200,
        300,
        PRIZE,
        places,
        3,
        min_art_vote,
    )
    .unwrap()
}

fn enter(c: &mut ContestContract, id: i16, artist: &str) {
    let who = s(artist);
    let token_id = format!("{}-token", artist);
    let check = c.submit_art(&who, 150, s("nft.near"), token_id.clone(), id).unwrap();
    assert_eq!(
        check,
        SubmissionLookup { nft_contract_id: s("nft.near"), token_id: token_id.clone(), contest_id: id }
    );
    c.on_submission_verified(
        &who,
        150,
        token(artist, &token_id),
        check.token_id,
        check.nft_contract_id,
        id,
    )
    .unwrap();
}

fn cast(c: &mut ContestContract, id: i16, voter: &str, artist: &str) -> Result<(), ContestError> {
    let who = s(voter);
    let check = c.vote(&who, 250, id, s(artist))?;
    c.on_vote_verified(&who, &token(artist, &check.token_id), check.submission_owner, id)
}

fn cast_many(c: &mut ContestContract, id: i16, artist: &str, n: usize) {
    for i in 0..n {
        cast(c, id, &format!("{}-fan{}", artist, i), artist).unwrap();
    }
}

fn payout(c: &ContestContract, id: i16, who: &str) -> Result<PayOutInfo, ContestError> {
    c.get_winner_payout_info(id, &s(who))
}

fn policy(roles: Vec<RolePermission>) -> Policy {
    let vp = VotePolicy {
        weight_kind: WeightKind::RoleWeight,
        quorum: 0,
        threshold: WeightOrRatio::Ratio(1, 2),
    };
    Policy {
        roles,
        default_vote_policy: vp,
        proposal_bond: 1,
        proposal_period: 10,
        bounty_bond: 1,
        bounty_forgiveness_period: 10,
    }
}

fn role(name: &str, kind: RoleKind, permissions: &[&str]) -> RolePermission {
    RolePermission {
        name: s(name),
        kind,
        permissions: permissions.iter().map(|p| s(p)).collect(),
        vote_policy: vec![],
    }
}

#[test]
fn two_way_tie_takes_both_places() {
    let mut c = registry();
    let id = create(&mut c, 2, 0);
    for a in ["alice", "bob", "carol"] {
        enter(&mut c, id, a);
    }
    cast_many(&mut c, id, "alice", 5);
    cast_many(&mut c, id, "bob", 5);
    cast_many(&mut c, id, "carol", 3);
    c.finalise_contest(300, id).unwrap();
    let alice = payout(&c, id, "alice").unwrap();
    let bob = payout(&c, id, "bob").unwrap();
    assert_eq!(alice.amount(PRIZE), PRIZE / 2);
    assert_eq!(bob.amount(PRIZE), PRIZE / 2);
    assert_eq!(payout(&c, id, "carol"), Err(ContestError::WinnerNotFound));
}

#[test]
fn three_way_tie_is_paid_past_the_places() {
    let mut c = registry();
    let id = create(&mut c, 2, 0);
    for a in ["alice", "bob", "carol"] {
        enter(&mut c, id, a);
        cast_many(&mut c, id, a, 5);
    }
    c.finalise_contest(300, id).unwrap();
    for a in ["alice", "bob", "carol"] {
        let p = payout(&c, id, a).unwrap();
        assert_eq!(p, PayOutInfo { places_won: 2, places_paid: 2, group_size: 3, proposal_id: None });
        assert_eq!(p.amount(PRIZE), PRIZE / 3);
    }
}

#[test]
fn lapsed_ownership_withdraws_the_entry() {
    let mut c = registry();
    let id = create(&mut c, 1, 0);
    enter(&mut c, id, "alice");
    let voter = s("dave");
    let check = c.vote(&voter, 250, id, s("alice")).unwrap();
    assert_eq!(
        check,
        VoteLookup {
            nft_contract_id: s("nft.near"),
            token_id: s("alice-token"),
            submission_owner: s("alice"),
            contest_id: id,
        }
    );
    let sold = token("mallory", &check.token_id);
    assert_eq!(
        c.on_vote_verified(&voter, &sold, s("alice"), id),
        Err(ContestError::OwnershipLapsed)
    );
    assert_eq!(c.get_artist_art_vote(id, &s("alice")), Err(ContestError::ArtNotFound));
    assert_eq!(c.get_all_user_voted(id).unwrap(), Vec::<String>::new());
    assert_eq!(c.get_user_voted(id, &voter), Ok(false));
    assert!(c.get_specific_art_voters(id, &s("alice")).unwrap().is_empty());
    assert_eq!(c.get_contest_detail(id).unwrap().submissions, 0);
}

#[test]
fn second_finalise_is_refused() {
    let mut c = registry();
    let id = create(&mut c, 2, 0);
    enter(&mut c, id, "alice");
    enter(&mut c, id, "bob");
    cast_many(&mut c, id, "alice", 2);
    cast_many(&mut c, id, "bob", 1);
    c.finalise_contest(300, id).unwrap();
    let first = c.get_contest_detail(id).unwrap().winners;
    let alice = payout(&c, id, "alice").unwrap();
    let bob = payout(&c, id, "bob").unwrap();
    assert_eq!(c.finalise_contest(400, id), Err(ContestError::AlreadyFinalised));
    assert_eq!(c.get_contest_detail(id).unwrap().winners, first);
    assert_eq!(payout(&c, id, "alice").unwrap(), alice);
    assert_eq!(payout(&c, id, "bob").unwrap(), bob);
    assert_eq!(alice.amount(PRIZE), PRIZE / 2);
    assert_eq!(bob.amount(PRIZE), PRIZE / 2);
}

#[test]
fn finalise_before_voting_ends_is_refused() {
    let mut c = registry();
    let id = create(&mut c, 2, 0);
    assert_eq!(c.finalise_contest(299, id), Err(ContestError::VotingOngoing));
    assert_eq!(c.finalise_contest(300, 9), Err(ContestError::ContestNotFound));
}

#[test]
fn no_qualifying_entry_ends_without_winners() {
    let mut c = registry();
    let id = create(&mut c, 2, 3);
    enter(&mut c, id, "alice");
    cast_many(&mut c, id, "alice", 2);
    assert_eq!(c.finalise_contest(300, id), Ok(()));
    assert!(c.get_contest_detail(id).unwrap().winners.is_empty());
    assert_eq!(c.finalise_contest(301, id), Err(ContestError::AlreadyFinalised));
}

#[test]
fn zero_places_pays_nobody() {
    let mut c = registry();
    let id = create(&mut c, 0, 0);
    enter(&mut c, id, "alice");
    cast_many(&mut c, id, "alice", 1);
    c.finalise_contest(300, id).unwrap();
    assert!(c.get_contest_detail(id).unwrap().winners.is_empty());
}

#[test]
fn allocation_splits_levels() {
    let entries = vec![(s("a"), 5), (s("b"), 3), (s("c"), 3), (s("d"), 1)];
    let groups = allocate_prizes(&entries, 0, 2);
    assert_eq!(groups.len(), 2);
    assert_eq!((groups[0].votes, groups[0].members.clone(), groups[0].places_won), (5, vec![s("a")], 1));
    assert_eq!(
        (groups[1].votes, groups[1].members.clone(), groups[1].places_won),
        (3, vec![s("b"), s("c")], 1)
    );
    let total: u64 = groups.iter().map(|g| g.places_won).sum();
    assert_eq!(total, 2);
    let a = PayOutInfo { places_won: 1, places_paid: 2, group_size: 1, proposal_id: None };
    let b = PayOutInfo { places_won: 1, places_paid: 2, group_size: 2, proposal_id: None };
    assert_eq!(a.amount(1000), 500);
    assert_eq!(b.amount(1000), 250);
    assert_eq!(a.amount(PRIZE) + 2 * b.amount(PRIZE), PRIZE);
}

#[test]
fn allocation_with_fewer_entries_than_places() {
    let entries = vec![(s("a"), 4), (s("b"), 2)];
    let groups = allocate_prizes(&entries, 0, 5);
    assert_eq!(groups.len(), 2);
    assert_eq!(groups[0].places_won + groups[1].places_won, 2);
    assert!(allocate_prizes(&vec![], 0, 3).is_empty());
    assert!(allocate_prizes(&entries, 5, 3).is_empty());
    assert!(allocate_prizes(&entries, 0, -1).is_empty());
}

#[test]
fn amount_rounds_down() {
    let p = PayOutInfo { places_won: 2, places_paid: 3, group_size: 3, proposal_id: None };
    assert_eq!(p.amount(100), 22);
    assert_eq!(p.amount(u128::MAX), u128::MAX / 9 * 2 + (u128::MAX % 9) * 2 / 9);
}

#[test]
fn detail_reads_back_creation() {
    let mut c = registry();
    let id = create(&mut c, 2, 1);
    assert_eq!(id, 1);
    let d = c.get_contest_detail(id).unwrap();
    assert_eq!(d.title, "Art contest");
    assert_eq!(d.description, "Paint the sea");
    assert_eq!(d.dao_id, "dao.near");
    assert_eq!(d.logo_url, "ipfs://logo");
    assert_eq!(d.creator, "creator.near");
    assert_eq!(
        (d.submission_start_time, d.submission_end_time, d.voting_start_time, d.voting_end_time),
        (100, 200, 200, 300)
    );
    assert_eq!((d.prize, d.places, d.submissions), (PRIZE, 2, 0));
    assert!(d.winners.is_empty());
    assert_eq!(c.get_contest_detail(2), Err(ContestError::ContestNotFound));
    assert_eq!(create(&mut c, 1, 0), 2);
    let all = c.get_contests();
    assert_eq!(all.iter().map(|x| x.0).collect::<Vec<_>>(), vec![1, 2]);
}

#[test]
fn contests_by_creator_filters() {
    let mut c = registry();
    create(&mut c, 1, 0);
    c.create_contest(
        s("other.near"), s("B"), s("b"), s("dao.near"), s(""), 0, 1, 1, 2, 5, 1, 0, 0,
    )
    .unwrap();
    create(&mut c, 1, 0);
    let mine = c.get_contests_by_creator(&s("creator.near"));
    assert_eq!(mine.iter().map(|x| x.0).collect::<Vec<_>>(), vec![1, 3]);
    let theirs = c.get_contests_by_creator(&s("other.near"));
    assert_eq!(theirs.len(), 1);
    assert_eq!(theirs[0].1.title, "B");
    assert!(c.get_contests_by_creator(&s("nobody.near")).is_empty());
}

#[test]
fn entry_takes_token_metadata() {
    let mut c = registry();
    let id = create(&mut c, 1, 0);
    enter(&mut c, id, "alice");
    let art = c.get_artist_art_vote(id, &s("alice")).unwrap();
    assert_eq!(art.title, "Sunset");
    assert_eq!(art.image_url, "ipfs://sunset");
    assert_eq!(art.contract_id, "nft.near");
    assert_eq!(art.token_id, "alice-token");
    assert_eq!(art.timestamp, 150);
    assert_eq!(art.votes, 0);
    let bare = Token {
        token_id: s("7"),
        owner_id: s("bob"),
        metadata: metadata(None, None),
        approved_account_ids: vec![],
        royalty: vec![],
    };
    c.on_submission_verified(&s("bob"), 160, bare, s("7"), s("nft.near"), id).unwrap();
    let art = c.get_artist_art_vote(id, &s("bob")).unwrap();
    assert_eq!(art.title, "UnTitled");
    assert_eq!(art.image_url, "");
    assert_eq!(c.get_contest_arts(id).unwrap().len(), 2);
}

#[test]
fn second_entry_is_refused() {
    let mut c = registry();
    let id = create(&mut c, 1, 0);
    enter(&mut c, id, "alice");
    assert_eq!(
        c.submit_art(&s("alice"), 150, s("nft.near"), s("2"), id),
        Err(ContestError::Rejected(SubmissionError::DuplicateCandidate))
    );
    assert_eq!(
        c.on_submission_verified(&s("alice"), 150, token("alice", "2"), s("2"), s("nft.near"), id),
        Err(ContestError::Rejected(SubmissionError::DuplicateCandidate))
    );
    assert_eq!(c.get_contest_arts(id).unwrap().len(), 1);
}

#[test]
fn submission_window_is_half_open() {
    let mut c = registry();
    let id = create(&mut c, 1, 0);
    let a = s("alice");
    assert_eq!(c.submit_art(&a, 99, s("n"), s("1"), id), Err(ContestError::SubmissionClosed));
    assert!(c.submit_art(&a, 100, s("n"), s("1"), id).is_ok());
    assert!(c.submit_art(&a, 199, s("n"), s("1"), id).is_ok());
    assert_eq!(c.submit_art(&a, 200, s("n"), s("1"), id), Err(ContestError::SubmissionClosed));
    assert_eq!(c.is_submission_active(150, id), Ok(true));
    assert_eq!(c.is_submission_active(200, id), Ok(false));
    assert_eq!(c.is_voting_active(200, id), Ok(true));
    assert_eq!(c.is_voting_active(300, id), Ok(false));
    assert_eq!(c.is_voting_active(250, 5), Err(ContestError::ContestNotFound));
}

#[test]
fn callback_needs_owner_signature() {
    let mut c = registry();
    let id = create(&mut c, 1, 0);
    assert_eq!(
        c.on_submission_verified(&s("eve"), 150, token("alice", "1"), s("1"), s("nft.near"), id),
        Err(ContestError::NotOwner)
    );
    assert!(c.get_contest_arts(id).unwrap().is_empty());
}

#[test]
fn votes_match_vote_record() {
    let mut c = registry();
    let id = create(&mut c, 1, 0);
    enter(&mut c, id, "alice");
    enter(&mut c, id, "bob");
    cast_many(&mut c, id, "alice", 3);
    cast(&mut c, id, "zed", "bob").unwrap();
    let total: u32 = c.get_contest_arts(id).unwrap().iter().map(|a| a.1.votes).sum();
    assert_eq!(total as usize, c.get_all_user_voted(id).unwrap().len());
    assert_eq!(
        c.get_specific_art_voters(id, &s("alice")).unwrap(),
        vec![s("alice-fan0"), s("alice-fan1"), s("alice-fan2")]
    );
    assert_eq!(c.get_user_voted(id, &s("zed")), Ok(true));
}

#[test]
fn second_vote_is_refused() {
    let mut c = registry();
    let id = create(&mut c, 1, 0);
    enter(&mut c, id, "alice");
    enter(&mut c, id, "bob");
    cast(&mut c, id, "dave", "alice").unwrap();
    assert_eq!(
        cast(&mut c, id, "dave", "bob"),
        Err(ContestError::Rejected(SubmissionError::DoubleVote(s("dave"))))
    );
    assert_eq!(
        c.on_vote_verified(&s("dave"), &token("bob", "bob-token"), s("bob"), id),
        Err(ContestError::Rejected(SubmissionError::DoubleVote(s("dave"))))
    );
    assert_eq!(c.get_all_user_voted(id).unwrap(), vec![s("dave")]);
    assert_eq!(c.get_artist_art_vote(id, &s("bob")).unwrap().votes, 0);
}

#[test]
fn voting_window_and_missing_entry() {
    let mut c = registry();
    let id = create(&mut c, 1, 0);
    enter(&mut c, id, "alice");
    assert_eq!(c.vote(&s("d"), 199, id, s("alice")), Err(ContestError::VotingClosed));
    assert_eq!(c.vote(&s("d"), 300, id, s("alice")), Err(ContestError::VotingClosed));
    assert_eq!(c.vote(&s("d"), 250, id, s("nobody")), Err(ContestError::ArtNotFound));
    assert_eq!(
        c.on_vote_verified(&s("d"), &token("nobody", "x"), s("nobody"), id),
        Err(ContestError::ArtNotFound)
    );
}

#[test]
fn vote_counter_limit() {
    let mut c = registry();
    let id = create(&mut c, 1, 0);
    enter(&mut c, id, "alice");
    c.contests[0].submissions[0].1.votes = u32::MAX;
    assert_eq!(cast(&mut c, id, "dave", "alice"), Err(ContestError::VoteLimit));
    assert!(c.get_all_user_voted(id).unwrap().is_empty());
}

#[test]
fn disqualified_artist_is_barred() {
    let mut c = registry();
    let id = create(&mut c, 1, 0);
    enter(&mut c, id, "alice");
    enter(&mut c, id, "bob");
    assert_eq!(
        c.admin_disqualify_artist(&s("eve"), id, s("alice")),
        Err(ContestError::NotAdmin)
    );
    c.admin_disqualify_artist(&s("admin.near"), id, s("alice")).unwrap();
    assert_eq!(c.get_artist_art_vote(id, &s("alice")), Err(ContestError::ArtNotFound));
    let barred = ContestError::Rejected(SubmissionError::Blacklisted);
    assert_eq!(c.submit_art(&s("alice"), 150, s("n"), s("1"), id).unwrap_err(), barred);
    assert_eq!(
        c.on_submission_verified(&s("alice"), 150, token("alice", "1"), s("1"), s("n"), id),
        Err(barred.clone())
    );
    assert_eq!(c.vote(&s("alice"), 250, id, s("bob")).unwrap_err(), barred);
    assert_eq!(
        c.on_vote_verified(&s("alice"), &token("bob", "bob-token"), s("bob"), id),
        Err(barred)
    );
    assert!(c.get_all_user_voted(id).unwrap().is_empty());
    assert_eq!(c.get_contest_arts(id).unwrap().len(), 1);
    assert_eq!(
        c.admin_disqualify_artist(&s("admin.near"), 4, s("bob")),
        Err(ContestError::ContestNotFound)
    );
}

#[test]
fn pause_stops_writes() {
    let mut c = registry();
    let id = create(&mut c, 1, 0);
    assert_eq!(c.pause_contract(&s("eve"), true), Err(ContestError::NotAdmin));
    c.pause_contract(&s("admin.near"), true).unwrap();
    assert!(c.paused);
    assert_eq!(
        c.submit_art(&s("a"), 150, s("n"), s("1"), id),
        Err(ContestError::Paused)
    );
    assert_eq!(
        c.create_contest(s("x"), s("t"), s("d"), s("dao"), s("l"), 0, 1, 1, 2, 1, 1, 0, 0),
        Err(ContestError::Paused)
    );
    assert_eq!(c.finalise_contest(300, id), Err(ContestError::Paused));
    assert_eq!(c.vote(&s("d"), 250, id, s("a")), Err(ContestError::Paused));
    c.pause_contract(&s("admin.near"), false).unwrap();
    assert!(c.submit_art(&s("a"), 150, s("n"), s("1"), id).is_ok());
}

#[test]
fn ids_run_out() {
    let mut c = registry();
    for _ in 0..(i16::MAX - 1) {
        create(&mut c, 1, 0);
    }
    assert_eq!(create(&mut c, 1, 0), i16::MAX);
    assert_eq!(
        c.create_contest(s("x"), s("t"), s("d"), s("dao"), s("l"), 0, 1, 1, 2, 1, 1, 0, 0),
        Err(ContestError::NoIdLeft)
    );
}

#[test]
fn proposal_id_needs_permission() {
    let mut c = registry();
    let id = create(&mut c, 1, 0);
    enter(&mut c, id, "alice");
    cast_many(&mut c, id, "alice", 1);
    c.finalise_contest(300, id).unwrap();
    assert_eq!(
        c.set_payout_proposal_id(id, s("bob"), 7),
        Err(ContestError::WinnerNotFound)
    );
    let check = c.set_payout_proposal_id(id, s("alice"), 7).unwrap();
    assert_eq!(
        check,
        PolicyLookup { dao_id: s("dao.near"), winner: s("alice"), contest_id: id, proposal_id: 7 }
    );
    let closed = policy(vec![role("council", RoleKind::Group(vec![s("carol")]), &["*:*"])]);
    assert_eq!(
        c.on_dao_policy_verified(&s("dave"), 0, &closed, s("alice"), id, 7),
        Err(ContestError::Unauthorized)
    );
    assert_eq!(payout(&c, id, "alice").unwrap().proposal_id, None);
    let open = policy(vec![role("all", RoleKind::Everyone, &["transfer:*"])]);
    c.on_dao_policy_verified(&s("dave"), 0, &open, s("alice"), id, 7).unwrap();
    assert_eq!(payout(&c, id, "alice").unwrap().proposal_id, Some(7));
    c.on_dao_policy_verified(&s("dave"), 0, &open, s("alice"), id, 9).unwrap();
    assert_eq!(payout(&c, id, "alice").unwrap().proposal_id, Some(9));
    assert_eq!(
        c.on_dao_policy_verified(&s("dave"), 0, &open, s("bob"), id, 9),
        Err(ContestError::WinnerNotFound)
    );
    assert_eq!(
        c.on_dao_policy_verified(&s("dave"), 0, &open, s("alice"), 8, 9),
        Err(ContestError::ContestNotFound)
    );
}

#[test]
fn permission_wildcards() {
    let user = s("dave");
    for p in ["transfer:AddProposal", "transfer:*", "*:AddProposal", "*:*"] {
        assert!(can_add_proposal(&user, 0, &policy(vec![role("r", RoleKind::Everyone, &[p])])));
    }
    for p in ["transfer:VoteApprove", "call:AddProposal", "transfer", "*"] {
        assert!(!can_add_proposal(&user, 0, &policy(vec![role("r", RoleKind::Everyone, &[p])])));
    }
    let group = policy(vec![
        role("council", RoleKind::Group(vec![s("carol"), s("dave")]), &["*:*"]),
        role("members", RoleKind::Member(10), &["*:*"]),
    ]);
    assert!(can_add_proposal(&user, 0, &group));
    assert!(!can_add_proposal(&s("erin"), 9, &group));
    assert!(can_add_proposal(&s("erin"), 10, &group));
    let roles = get_user_roles(&user, 0, &group);
    assert_eq!(roles, vec![(s("council"), vec![s("*:*")])]);
    let roles = get_user_roles(&user, 50, &group);
    assert_eq!(roles.len(), 2);
    assert!(match_user(&RoleKind::Everyone, &user, 0));
    assert!(!match_user(&RoleKind::Member(1), &user, 0));
    assert!(match_user(&RoleKind::Member(1), &user, 1));
    assert!(match_user(&RoleKind::Member(5), &user, 7));
    assert!(!match_user(&RoleKind::Group(vec![s("carol")]), &user, 100));
}

#[test]
fn member_balance_decides_proposal_right() {
    let mut c = registry();
    let id = create(&mut c, 1, 0);
    enter(&mut c, id, "alice");
    cast_many(&mut c, id, "alice", 1);
    c.finalise_contest(300, id).unwrap();
    let members = policy(vec![role("members", RoleKind::Member(100), &["transfer:AddProposal"])]);
    assert_eq!(
        c.on_dao_policy_verified(&s("dave"), 99, &members, s("alice"), id, 3),
        Err(ContestError::Unauthorized)
    );
    c.on_dao_policy_verified(&s("dave"), 100, &members, s("alice"), id, 3).unwrap();
    assert_eq!(payout(&c, id, "alice").unwrap().proposal_id, Some(3));
}

#[test]
fn barred_voter_cannot_withdraw_an_entry() {
    let mut c = registry();
    let id = create(&mut c, 1, 0);
    enter(&mut c, id, "alice");
    enter(&mut c, id, "bob");
    c.admin_disqualify_artist(&s("admin.near"), id, s("bob")).unwrap();
    let sold = token("mallory", "alice-token");
    assert_eq!(
        c.on_vote_verified(&s("bob"), &sold, s("alice"), id),
        Err(ContestError::Rejected(SubmissionError::Blacklisted))
    );
    assert!(c.get_artist_art_vote(id, &s("alice")).is_ok());
    assert!(c.get_all_user_voted(id).unwrap().is_empty());
    assert_eq!(c.contests[0].withdrawn_votes, 0);
}

#[test]
fn withdrawn_votes_stay_on_record() {
    let mut c = registry();
    let id = create(&mut c, 1, 0);
    enter(&mut c, id, "alice");
    enter(&mut c, id, "bob");
    cast_many(&mut c, id, "alice", 2);
    cast_many(&mut c, id, "bob", 3);
    assert_eq!(c.contests[0].withdrawn_votes, 0);
    let dave = s("dave");
    let check = c.vote(&dave, 250, id, s("bob")).unwrap();
    assert_eq!(
        c.on_vote_verified(&dave, &token("mallory", &check.token_id), s("bob"), id),
        Err(ContestError::OwnershipLapsed)
    );
    assert_eq!(c.contests[0].withdrawn_votes, 3);
    c.admin_disqualify_artist(&s("admin.near"), id, s("alice")).unwrap();
    assert_eq!(c.contests[0].withdrawn_votes, 5);
    assert_eq!(c.get_all_user_voted(id).unwrap().len(), 5);
}

#[test]
fn decimal_digits() {
    assert_eq!(contest_contract::errors::decimal_text(0), "0");
    assert_eq!(contest_contract::errors::decimal_text(9), "9");
    assert_eq!(contest_contract::errors::decimal_text(10), "10");
    assert_eq!(contest_contract::errors::decimal_text(u128::MAX), u128::MAX.to_string());
}

#[test]
fn error_messages() {
    assert_eq!(SubmissionError::DoubleVote(s("42")).message(), "user already voted with sbt=42");
    assert_eq!(
        SubmissionError::MinBond(1000, 7).message(),
        "required bond amount=1000, deposited=7"
    );
    assert_eq!(SubmissionError::NoBond.message(), "Voter didn't bond");
    assert_eq!(
        SubmissionError::DuplicateCandidate.message(),
        "double vote for the same candidate"
    );
    assert_eq!(
        RevokeSubmissionError::NotBlacklisted.message(),
        "can not revoke a not blacklisted voter"
    );
}

#[test]
fn every_vote_stays_listed_under_one_artist() {
    let mut c = registry();
    let id = create(&mut c, 1, 0);
    for a in ["alice", "bob"] {
        enter(&mut c, id, a);
    }
    cast_many(&mut c, id, "alice", 2);
    cast_many(&mut c, id, "bob", 3);
    c.admin_disqualify_artist(&s("admin.near"), id, s("bob")).unwrap();
    let listed: usize = ["alice", "bob"]
        .iter()
        .map(|a| c.get_specific_art_voters(id, &s(a)).unwrap().len())
        .sum();
    assert_eq!(listed, 5);
    assert_eq!(c.get_all_user_voted(id).unwrap().len(), 5);
    let counted: u32 = c.get_contest_arts(id).unwrap().iter().map(|a| a.1.votes).sum();
    assert_eq!(counted, 2);
}
