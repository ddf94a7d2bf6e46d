//! Splitting the prize pool among the most voted entries.
//!
//! Entries are taken level by level, from the highest vote count down. Every
//! entry tied at a level is paid the same share. A level that fits in the
//! places still open takes one place per entry; the level that reaches the last
//! open place shares what is left of the pool among all of its entries, even
//! where they outnumber the places.
use vstd::prelude::*;

verus! {

/// An entry takes part in the allocation when it has at least `min_art_vote` votes.
pub open spec fn qualifies(votes: u32, min_art_vote: i16) -> bool {
    votes as int >= min_art_vote as int
}

/// How many entries take part in the allocation.
pub open spec fn qualifying_count(s: Seq<(String, u32)>, min_art_vote: i16) -> nat
    decreases s.len(),
{
    if s.len() == 0 {
        0
    } else {
        qualifying_count(s.drop_last(), min_art_vote) + if qualifies(s.last().1, min_art_vote) {
            1nat
        } else {
            0nat
        }
    }
}

/// How many taking part have strictly more than `v` votes.
pub open spec fn count_above(s: Seq<(String, u32)>, min_art_vote: i16, v: int) -> nat
    decreases s.len(),
{
    if s.len() == 0 {
        0
    } else {
        count_above(s.drop_last(), min_art_vote, v) + if qualifies(s.last().1, min_art_vote)
            && s.last().1 > v {
            1nat
        } else {
            0nat
        }
    }
}

/// The owners of the entries taking part with exactly `v` votes, in entry order.
pub open spec fn tied_at(s: Seq<(String, u32)>, min_art_vote: i16, v: u32) -> Seq<Seq<char>>
    decreases s.len(),
{
    if s.len() == 0 {
        Seq::empty()
    } else {
        let rest = tied_at(s.drop_last(), min_art_vote, v);
        if qualifies(s.last().1, min_art_vote) && s.last().1 == v {
            rest.push(s.last().0@)
        } else {
            rest
        }
    }
}

/// The number of places that are paid: the places asked for, but no more than
/// there are entries taking part, and none when no place is asked for.
pub open spec fn paid_places(s: Seq<(String, u32)>, min_art_vote: i16, places: i16) -> int {
    if places <= 0 {
        0
    } else if (places as int) < qualifying_count(s, min_art_vote) {
        places as int
    } else {
        qualifying_count(s, min_art_vote) as int
    }
}

/// The entries tied at one vote count, and the number of paid places they share.
pub struct PrizeGroup {
    pub votes: u32,
    pub members: Vec<String>,
    pub places_won: u64,
}

pub open spec fn member_views(g: PrizeGroup) -> Seq<Seq<char>> {
    g.members@.map_values(|m: String| m@)
}

/// The total of the places shared out over a list of groups.
pub open spec fn sum_places_won(g: Seq<PrizeGroup>) -> int
    decreases g.len(),
{
    if g.len() == 0 {
        0
    } else {
        sum_places_won(g.drop_last()) + g.last().places_won
    }
}

/// `groups` is the allocation of `paid_places` places over `entries`: one group for
/// each vote count that some entry taking part has and that fewer than the paid
/// places are above, from the highest count down, each group holding every
/// entry tied there and sharing the places left, at most one per member.
pub open spec fn is_allocation(
    entries: Seq<(String, u32)>,
    min_art_vote: i16,
    places: i16,
    groups: Seq<PrizeGroup>,
) -> bool {
    let p = paid_places(entries, min_art_vote, places);
    &&& forall|k: int|
        0 <= k < groups.len() ==> member_views(#[trigger] groups[k]) == tied_at(
            entries,
            min_art_vote,
            groups[k].votes,
        )
    &&& forall|k: int| 0 <= k < groups.len() ==> (#[trigger] groups[k]).members.len() > 0
    &&& forall|k: int|
        0 <= k < groups.len() ==> count_above(entries, min_art_vote, (#[trigger] groups[k]).votes as int)
            < p
    &&& forall|k: int|
        0 <= k < groups.len() ==> (#[trigger] groups[k]).places_won as int == min_int(
            groups[k].members.len() as int,
            p - count_above(entries, min_art_vote, groups[k].votes as int),
        )
    &&& forall|j: int, k: int| 0 <= j < k < groups.len() ==> groups[j].votes > groups[k].votes
    &&& forall|i: int|
        0 <= i < entries.len() && qualifies(#[trigger] entries[i].1, min_art_vote) && count_above(
            entries,
            min_art_vote,
            entries[i].1 as int,
        ) < p ==> exists|k: int| 0 <= k < groups.len() && groups[k].votes == entries[i].1
    &&& sum_places_won(groups) == p
}

pub open spec fn min_int(a: int, b: int) -> int {
    if a < b {
        a
    } else {
        b
    }
}

proof fn lemma_counts_bounded(s: Seq<(String, u32)>, min_art_vote: i16, v: int)
    ensures
        count_above(s, min_art_vote, v) <= qualifying_count(s, min_art_vote),
        qualifying_count(s, min_art_vote) <= s.len(),
        tied_at(s, min_art_vote, v as u32).len() <= s.len(),
    decreases s.len(),
{
    if s.len() > 0 {
        lemma_counts_bounded(s.drop_last(), min_art_vote, v);
    }
}

/// Those above `v` and those at `v` together are those at `v` or above.
proof fn lemma_above_and_tied(s: Seq<(String, u32)>, min_art_vote: i16, v: u32)
    ensures
        count_above(s, min_art_vote, v as int - 1) == count_above(s, min_art_vote, v as int)
            + tied_at(s, min_art_vote, v).len(),
    decreases s.len(),
{
    if s.len() > 0 {
        lemma_above_and_tied(s.drop_last(), min_art_vote, v);
    }
}

/// Where no entry taking part has a count in `(w, bound)`, those above `w` are
/// those at `bound` or above.
proof fn lemma_gap(s: Seq<(String, u32)>, min_art_vote: i16, w: int, bound: int)
    requires
        w < bound,
        forall|i: int|
            0 <= i < s.len() && qualifies(#[trigger] s[i].1, min_art_vote) ==> s[i].1 >= bound
                || s[i].1 <= w,
    ensures
        count_above(s, min_art_vote, w) == count_above(s, min_art_vote, bound - 1),
    decreases s.len(),
{
    if s.len() > 0 {
        let t = s.drop_last();
        assert forall|i: int| 0 <= i < t.len() && qualifies(#[trigger] t[i].1, min_art_vote) implies t[i].1
            >= bound || t[i].1 <= w by {
            assert(t[i] == s[i]);
        }
        lemma_gap(t, min_art_vote, w, bound);
    }
}

/// Fewer votes never means fewer entries above.
proof fn lemma_above_monotone(s: Seq<(String, u32)>, min_art_vote: i16, v: int, u: int)
    requires
        v <= u,
    ensures
        count_above(s, min_art_vote, v) >= count_above(s, min_art_vote, u),
    decreases s.len(),
{
    if s.len() > 0 {
        lemma_above_monotone(s.drop_last(), min_art_vote, v, u);
    }
}

/// Where every entry taking part has more than `v` votes, all of them are above `v`.
proof fn lemma_all_above(s: Seq<(String, u32)>, min_art_vote: i16, v: int)
    requires
        forall|i: int|
            0 <= i < s.len() && qualifies(#[trigger] s[i].1, min_art_vote) ==> s[i].1 > v,
    ensures
        count_above(s, min_art_vote, v) == qualifying_count(s, min_art_vote),
    decreases s.len(),
{
    if s.len() > 0 {
        let t = s.drop_last();
        assert forall|i: int| 0 <= i < t.len() && qualifies(#[trigger] t[i].1, min_art_vote) implies t[i].1
            > v by {
            assert(t[i] == s[i]);
        }
        lemma_all_above(t, min_art_vote, v);
    }
}

/// Where no entry taking part has more than `v` votes, none is above `v`.
proof fn lemma_none_above(s: Seq<(String, u32)>, min_art_vote: i16, v: int)
    requires
        forall|i: int|
            0 <= i < s.len() && qualifies(#[trigger] s[i].1, min_art_vote) ==> s[i].1 <= v,
    ensures
        count_above(s, min_art_vote, v) == 0,
    decreases s.len(),
{
    if s.len() > 0 {
        let t = s.drop_last();
        assert forall|i: int| 0 <= i < t.len() && qualifies(#[trigger] t[i].1, min_art_vote) implies t[i].1
            <= v by {
            assert(t[i] == s[i]);
        }
        lemma_none_above(t, min_art_vote, v);
    }
}

pub fn count_qualifying(entries: &Vec<(String, u32)>, min_art_vote: i16) -> (r: usize)
    ensures
        r == qualifying_count(entries@, min_art_vote),
{
    let mut n: usize = 0;
    let mut i: usize = 0;
    while i < entries.len()
        invariant
            i <= entries.len(),
            n == qualifying_count(entries@.subrange(0, i as int), min_art_vote),
        decreases entries.len() - i,
    {
        proof {
            assert(entries@.subrange(0, i + 1).drop_last() == entries@.subrange(0, i as int));
            lemma_counts_bounded(entries@.subrange(0, i as int), min_art_vote, 0);
        }
        if entries[i].1 as i64 >= min_art_vote as i64 {
            n = n + 1;
        }
        i = i + 1;
    }
    assert(entries@.subrange(0, entries.len() as int) == entries@);
    n
}

/// The highest vote count below `bound` among the entries taking part, if any.
fn next_level(entries: &Vec<(String, u32)>, min_art_vote: i16, bound: u64) -> (r: Option<u32>)
    ensures
        match r {
            Some(w) => {
                &&& (w as int) < bound
                &&& exists|i: int|
                    0 <= i < entries@.len() && qualifies(entries@[i].1, min_art_vote)
                        && entries@[i].1 == w
                &&& forall|i: int|
                    0 <= i < entries@.len() && qualifies(#[trigger] entries@[i].1, min_art_vote)
                        && (entries@[i].1 as int) < bound ==> entries@[i].1 <= w
            },
            None => forall|i: int|
                0 <= i < entries@.len() && qualifies(#[trigger] entries@[i].1, min_art_vote)
                    ==> entries@[i].1 as int >= bound,
        },
{
    let mut best: Option<u32> = None;
    let mut i: usize = 0;
    while i < entries.len()
        invariant
            i <= entries.len(),
            match best {
                Some(w) => {
                    &&& (w as int) < bound
                    &&& exists|j: int|
                        0 <= j < i && qualifies(entries@[j].1, min_art_vote) && entries@[j].1 == w
                    &&& forall|j: int|
                        0 <= j < i && qualifies(#[trigger] entries@[j].1, min_art_vote)
                            && (entries@[j].1 as int) < bound ==> entries@[j].1 <= w
                },
                None => forall|j: int|
                    0 <= j < i && qualifies(#[trigger] entries@[j].1, min_art_vote)
                        ==> entries@[j].1 as int >= bound,
            },
        decreases entries.len() - i,
    {
        let v = entries[i].1;
        if v as i64 >= min_art_vote as i64 && (v as u64) < bound {
            match best {
                Some(w) => {
                    if v > w {
                        best = Some(v);
                    }
                },
                None => {
                    best = Some(v);
                },
            }
        }
        i = i + 1;
    }
    best
}

/// The owners of the entries taking part with exactly `v` votes, in entry order.
fn tied_owners(entries: &Vec<(String, u32)>, min_art_vote: i16, v: u32) -> (r: Vec<String>)
    ensures
        r@.map_values(|m: String| m@) == tied_at(entries@, min_art_vote, v),
{
    let mut out: Vec<String> = Vec::new();
    let mut i: usize = 0;
    while i < entries.len()
        invariant
            i <= entries.len(),
            out@.map_values(|m: String| m@) == tied_at(
                entries@.subrange(0, i as int),
                min_art_vote,
                v,
            ),
        decreases entries.len() - i,
    {
        proof {
            assert(entries@.subrange(0, i + 1).drop_last() == entries@.subrange(0, i as int));
        }
        if entries[i].1 as i64 >= min_art_vote as i64 && entries[i].1 == v {
            let owner = entries[i].0.clone();
            out.push(owner);
            assert(out@.map_values(|m: String| m@) == tied_at(
                entries@.subrange(0, i + 1),
                min_art_vote,
                v,
            ));
        }
        i = i + 1;
    }
    assert(entries@.subrange(0, entries.len() as int) == entries@);
    out
}

/// Splits the places over the entries (owner, votes) that have at least
/// `min_art_vote` votes. The paid places always add up to `paid_places`, so
/// the shares `places_won / (paid_places * members)` of the groups' members add
/// up to the whole prize, or to nothing where no place is paid.
pub fn allocate_prizes(entries: &Vec<(String, u32)>, min_art_vote: i16, places: i16) -> (r: Vec<
    PrizeGroup,
>)
    ensures
        is_allocation(entries@, min_art_vote, places, r@),
{
    let ghost s = entries@;
    let count = count_qualifying(entries, min_art_vote);
    let n = entries.len();
    let p: u64 = if places <= 0 {
        0
    } else if (places as usize) < count {
        places as u64
    } else {
        count as u64
    };
    proof {
        lemma_counts_bounded(s, min_art_vote, 0);
        lemma_none_above(s, min_art_vote, 0x1_0000_0000 - 1);
    }
    let mut groups: Vec<PrizeGroup> = Vec::new();
    let mut bound: u64 = 0x1_0000_0000;
    let mut paid: u64 = 0;
    let mut covered: usize = 0;
    while paid < p
        invariant
            p == paid_places(s, min_art_vote, places),
            p <= qualifying_count(s, min_art_vote),
            s == entries@,
            n == s.len(),
            bound <= 0x1_0000_0000,
            covered == count_above(s, min_art_vote, bound - 1),
            paid as int == min_int(covered as int, p as int),
            paid as int == sum_places_won(groups@),
            groups.len() > 0 ==> groups@.last().votes == bound,
            forall|k: int| 0 <= k < groups.len() ==> (#[trigger] groups@[k]).votes >= bound,
            forall|k: int|
                0 <= k < groups.len() ==> member_views(#[trigger] groups@[k]) == tied_at(
                    s,
                    min_art_vote,
                    groups@[k].votes,
                ),
            forall|k: int| 0 <= k < groups.len() ==> (#[trigger] groups@[k]).members.len() > 0,
            forall|k: int|
                0 <= k < groups.len() ==> count_above(s, min_art_vote, (#[trigger] groups@[k]).votes as int)
                    < p,
            forall|k: int|
                0 <= k < groups.len() ==> (#[trigger] groups@[k]).places_won as int == min_int(
                    groups@[k].members.len() as int,
                    p - count_above(s, min_art_vote, groups@[k].votes as int),
                ),
            forall|j: int, k: int| 0 <= j < k < groups.len() ==> groups@[j].votes > groups@[k].votes,
            forall|i: int|
                0 <= i < s.len() && qualifies(#[trigger] s[i].1, min_art_vote) && s[i].1 >= bound
                    ==> exists|k: int| 0 <= k < groups.len() && groups@[k].votes == s[i].1,
        ensures
            paid == p,
        decreases bound,
    {
        match next_level(entries, min_art_vote, bound) {
            None => {
                proof {
                    lemma_all_above(s, min_art_vote, bound - 1);
                }
                break ;
            },
            Some(w) => {
                proof {
                    lemma_gap(s, min_art_vote, w as int, bound as int);
                    lemma_above_and_tied(s, min_art_vote, w);
                    lemma_counts_bounded(s, min_art_vote, w as int - 1);
                }
                let members = tied_owners(entries, min_art_vote, w);
                let g = members.len();
                assert(covered + g <= n);
                proof {
                    let i = choose|i: int|
                        0 <= i < s.len() && qualifies(s[i].1, min_art_vote) && s[i].1 == w;
                    assert(member_views(PrizeGroup { votes: w, members, places_won: 0 }).len()
                        == g);
                    if g == 0 {
                        lemma_tied_contains(s, min_art_vote, w, i);
                    }
                }
                let room = p - paid;
                let won: u64 = if (g as u64) < room {
                    g as u64
                } else {
                    room
                };
                let ghost old_groups = groups@;
                groups.push(PrizeGroup { votes: w, members, places_won: won });
                proof {
                    assert(groups@.drop_last() == old_groups);
                    assert forall|i: int|
                        0 <= i < s.len() && qualifies(#[trigger] s[i].1, min_art_vote) && s[i].1
                            >= w implies exists|k: int|
                        0 <= k < groups.len() && groups@[k].votes == s[i].1 by {
                        if s[i].1 >= bound {
                            let k = choose|k: int|
                                0 <= k < old_groups.len() && old_groups[k].votes == s[i].1;
                            assert(groups@[k] == old_groups[k]);
                        } else {
                            assert(groups@[groups.len() - 1].votes == s[i].1);
                        }
                    }
                }
                paid = paid + won;
                covered = covered + g;
                bound = w as u64;
            },
        }
    }
    proof {
        assert forall|i: int|
            0 <= i < s.len() && qualifies(#[trigger] s[i].1, min_art_vote) && count_above(
                s,
                min_art_vote,
                s[i].1 as int,
            ) < p implies exists|k: int| 0 <= k < groups.len() && groups@[k].votes == s[i].1 by {
            if (s[i].1 as int) < bound {
                lemma_above_monotone(s, min_art_vote, s[i].1 as int, bound - 1);
            }
        }
    }
    groups
}

/// An entry taking part with `v` votes is among those tied at `v`.
proof fn lemma_tied_contains(s: Seq<(String, u32)>, min_art_vote: i16, v: u32, i: int)
    requires
        0 <= i < s.len(),
        qualifies(s[i].1, min_art_vote),
        s[i].1 == v,
    ensures
        tied_at(s, min_art_vote, v).len() > 0,
    decreases s.len(),
{
    if i < s.len() - 1 {
        let t = s.drop_last();
        assert(t[i] == s[i]);
        lemma_tied_contains(t, min_art_vote, v, i);
    }
}

/// The prize is shared out whole: a member of a group is paid
/// `prize * places_won / (paid * members)`, so a group's members together take
/// `prize * places_won / paid`, and the places won over all groups add up to the
/// `paid` places. The payouts therefore add up to the prize when some place is
/// paid, and to nothing when none is, as when no place is asked for; no group
/// wins more places than it has members.
pub proof fn prize_is_shared_whole(
    entries: Seq<(String, u32)>,
    min_art_vote: i16,
    places: i16,
    groups: Seq<PrizeGroup>,
)
    requires
        is_allocation(entries, min_art_vote, places, groups),
    ensures
        sum_places_won(groups) == paid_places(entries, min_art_vote, places),
        0 <= paid_places(entries, min_art_vote, places) <= if places > 0 {
            places as int
        } else {
            0
        },
        places <= 0 ==> groups.len() == 0,
        forall|k: int|
            0 <= k < groups.len() ==> (#[trigger] groups[k]).places_won <= groups[k].members.len(),
{
    if places <= 0 && groups.len() > 0 {
        assert(count_above(entries, min_art_vote, groups[0].votes as int) < 0);
    }
}

} // verus!
