use vstd::prelude::*;

verus! {

/// Failures of the eligibility checks on a submission or a vote.
#[derive(PartialEq, Eq, Debug, Clone)]
pub enum SubmissionError {
    WrongIssuer,
    NoSBTs,
    DuplicateCandidate,
    DoubleVote(String),
    MinBond(u128, u128),
    Blacklisted,
    NoBond,
}

/// The character of a decimal digit.
pub open spec fn digit_char(d: nat) -> char {
    if d == 0 {
        '0'
    } else if d == 1 {
        '1'
    } else if d == 2 {
        '2'
    } else if d == 3 {
        '3'
    } else if d == 4 {
        '4'
    } else if d == 5 {
        '5'
    } else if d == 6 {
        '6'
    } else if d == 7 {
        '7'
    } else if d == 8 {
        '8'
    } else {
        '9'
    }
}

/// A number written in decimal, without sign or leading zeros.
pub open spec fn decimal(n: nat) -> Seq<char>
    decreases n,
{
    if n < 10 {
        seq![digit_char(n)]
    } else {
        decimal(n / 10).push(digit_char(n % 10))
    }
}

/// The one-character string of a decimal digit.
fn digit_text(d: u128) -> (r: String)
    requires
        d < 10,
    ensures
        r@ == seq![digit_char(d as nat)],
{
    proof {
        reveal_strlit("0");
        reveal_strlit("1");
        reveal_strlit("2");
        reveal_strlit("3");
        reveal_strlit("4");
        reveal_strlit("5");
        reveal_strlit("6");
        reveal_strlit("7");
        reveal_strlit("8");
        reveal_strlit("9");
    }
    let r = if d == 0 {
        String::from_str("0")
    } else if d == 1 {
        String::from_str("1")
    } else if d == 2 {
        String::from_str("2")
    } else if d == 3 {
        String::from_str("3")
    } else if d == 4 {
        String::from_str("4")
    } else if d == 5 {
        String::from_str("5")
    } else if d == 6 {
        String::from_str("6")
    } else if d == 7 {
        String::from_str("7")
    } else if d == 8 {
        String::from_str("8")
    } else {
        String::from_str("9")
    };
    assert(r@ =~= seq![digit_char(d as nat)]);
    r
}

/// A number in decimal digits.
pub fn decimal_text(n: u128) -> (r: String)
    ensures
        r@ == decimal(n as nat),
{
    let mut m: u128 = n / 10;
    let mut acc = digit_text(n % 10);
    while m > 0
        invariant
            decimal(n as nat) == if m == 0 {
                Seq::<char>::empty()
            } else {
                decimal(m as nat)
            } + acc@,
        decreases m,
    {
        let d = digit_text(m % 10);
        proof {
            assert(decimal(m as nat) == if m / 10 == 0 {
                Seq::<char>::empty()
            } else {
                decimal((m / 10) as nat)
            } + seq![digit_char((m % 10) as nat)]);
        }
        acc = d.concat(acc.as_str());
        m = m / 10;
    }
    acc
}

impl SubmissionError {
    pub open spec fn text(&self) -> Seq<char> {
        match self {
            SubmissionError::WrongIssuer => "expected human SBTs proof from the human issuer only"@,
            SubmissionError::NoSBTs => "voter is not a verified human, expected IAH SBTs proof from the IAH issuer only"@,
            SubmissionError::DuplicateCandidate => "double vote for the same candidate"@,
            SubmissionError::DoubleVote(sbt) => "user already voted with sbt="@ + sbt@,
            SubmissionError::MinBond(req, amt) => "required bond amount="@ + decimal(*req as nat)
                + ", deposited="@ + decimal(*amt as nat),
            SubmissionError::Blacklisted => "user is blacklisted/no longer owns nft"@,
            SubmissionError::NoBond => "Voter didn't bond"@,
        }
    }

    /// What the failure says to the caller.
    pub fn message(&self) -> (r: String)
        ensures
            r@ == self.text(),
    {
        match self {
            SubmissionError::WrongIssuer => String::from_str(
                "expected human SBTs proof from the human issuer only",
            ),
            SubmissionError::NoSBTs => String::from_str(
                "voter is not a verified human, expected IAH SBTs proof from the IAH issuer only",
            ),
            SubmissionError::DuplicateCandidate => String::from_str(
                "double vote for the same candidate",
            ),
            SubmissionError::DoubleVote(sbt) => String::from_str(
                "user already voted with sbt=",
            ).concat(sbt.as_str()),
            SubmissionError::MinBond(req, amt) => {
                let required = decimal_text(*req);
                let deposited = decimal_text(*amt);
                String::from_str("required bond amount=").concat(required.as_str()).concat(
                    ", deposited=",
                ).concat(deposited.as_str())
            },
            SubmissionError::Blacklisted => String::from_str(
                "user is blacklisted/no longer owns nft",
            ),
            SubmissionError::NoBond => String::from_str("Voter didn't bond"),
        }
    }
}

/// Failures of the administrative reversal flows.
#[derive(PartialEq, Eq, Debug, Clone, Copy)]
pub enum RevokeSubmissionError {
    NotActive,
    NotVoted,
    NotBlacklisted,
}

/// Why an entry point of the contest refused a call.
#[derive(PartialEq, Eq, Debug, Clone)]
pub enum ContestError {
    /// the contract is paused
    Paused,
    /// the action is the administrator's
    NotAdmin,
    /// no contest has that id
    ContestNotFound,
    /// every contest id has been handed out
    NoIdLeft,
    /// the time is outside the submission window
    SubmissionClosed,
    /// the time is outside the voting window
    VotingClosed,
    /// the voting window has not closed yet
    VotingOngoing,
    /// the contest has already been finalised
    AlreadyFinalised,
    /// the artist has no entry in the contest
    ArtNotFound,
    /// the account is not among the winners
    WinnerNotFound,
    /// the account that signed is not the token's owner
    NotOwner,
    /// the entry's token changed hands; the entry has been withdrawn
    OwnershipLapsed,
    /// the policy grants the signer no right to add a transfer proposal
    Unauthorized,
    /// the entry holds as many votes as its counter can
    VoteLimit,
    /// an eligibility check failed
    Rejected(SubmissionError),
}

impl RevokeSubmissionError {
    pub open spec fn text(&self) -> Seq<char> {
        match self {
            RevokeSubmissionError::NotActive => "can only revoke votes between proposal start and (end time + cooldown)"@,
            RevokeSubmissionError::NotVoted => "voter did not vote on this proposal or the vote has been already revoked"@,
            RevokeSubmissionError::NotBlacklisted => "can not revoke a not blacklisted voter"@,
        }
    }

    /// What the failure says to the caller.
    pub fn message(&self) -> (r: String)
        ensures
            r@ == self.text(),
    {
        match self {
            RevokeSubmissionError::NotActive => String::from_str(
                "can only revoke votes between proposal start and (end time + cooldown)",
            ),
            RevokeSubmissionError::NotVoted => String::from_str(
                "voter did not vote on this proposal or the vote has been already revoked",
            ),
            RevokeSubmissionError::NotBlacklisted => String::from_str(
                "can not revoke a not blacklisted voter",
            ),
        }
    }
}

} // verus!
