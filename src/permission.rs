//! Whether a DAO's policy lets an account add a transfer proposal.
use vstd::prelude::*;

use crate::storage::{Policy, RoleKind, RolePermission};
use crate::util::{copy_strings, is_listed, listed};

verus! {

/// A role applies to `user`, who holds `balance`, when it is everyone's, when
/// it is a member role whose threshold the balance reaches, or when its group
/// lists `user`.
pub open spec fn role_applies(kind: RoleKind, user: Seq<char>, balance: u128) -> bool {
    match kind {
        RoleKind::Everyone => true,
        RoleKind::Member(amount) => balance >= amount,
        RoleKind::Group(accounts) => listed(accounts@, user),
    }
}

/// The permissions that allow adding a transfer proposal: the action itself,
/// or a wildcard on either side or both.
pub open spec fn grants_transfer_proposal(p: Seq<char>) -> bool {
    p == "transfer:AddProposal"@ || p == "transfer:*"@ || p == "*:AddProposal"@ || p == "*:*"@
}

pub open spec fn role_grants(permissions: Seq<String>) -> bool {
    exists|i: int| 0 <= i < permissions.len() && grants_transfer_proposal(permissions[i]@)
}

/// The roles of `roles` that apply to `user`, as (name, permissions), in order.
pub open spec fn user_roles(roles: Seq<RolePermission>, user: Seq<char>, balance: u128) -> Seq<
    (String, Seq<String>),
>
    decreases roles.len(),
{
    if roles.len() == 0 {
        Seq::empty()
    } else {
        let rest = user_roles(roles.drop_last(), user, balance);
        if role_applies(roles.last().kind, user, balance) {
            rest.push((roles.last().name, roles.last().permissions@))
        } else {
            rest
        }
    }
}

/// Some role that applies to `user` grants a transfer proposal.
pub open spec fn may_add_proposal(policy: Policy, user: Seq<char>, balance: u128) -> bool {
    let roles = user_roles(policy.roles@, user, balance);
    exists|q: int| 0 <= q < roles.len() && role_grants(#[trigger] roles[q].1)
}

pub fn match_user(role_kind: &RoleKind, user: &String, balance: u128) -> (r: bool)
    ensures
        r == role_applies(*role_kind, user@, balance),
{
    match role_kind {
        RoleKind::Everyone => true,
        RoleKind::Member(amount) => balance >= *amount,
        RoleKind::Group(accounts) => is_listed(accounts, user),
    }
}

/// The roles of the policy that apply to `user`, who holds `balance`, as
/// (name, permissions), in the policy's order.
pub fn get_user_roles(user: &String, balance: u128, policy: &Policy) -> (r: Vec<
    (String, Vec<String>),
>)
    ensures
        r@.map_values(|e: (String, Vec<String>)| (e.0, e.1@)) == user_roles(
            policy.roles@,
            user@,
            balance,
        ),
{
    let mut roles: Vec<(String, Vec<String>)> = Vec::new();
    let mut k: usize = 0;
    while k < policy.roles.len()
        invariant
            k <= policy.roles.len(),
            roles@.map_values(|e: (String, Vec<String>)| (e.0, e.1@)) == user_roles(
                policy.roles@.subrange(0, k as int),
                user@,
                balance,
            ),
        decreases policy.roles.len() - k,
    {
        proof {
            assert(policy.roles@.subrange(0, k + 1).drop_last() == policy.roles@.subrange(0, k as int));
        }
        let role: &RolePermission = &policy.roles[k];
        if match_user(&role.kind, user, balance) {
            roles.push((role.name.clone(), copy_strings(&role.permissions)));
            assert(roles@.map_values(|e: (String, Vec<String>)| (e.0, e.1@)) == user_roles(
                policy.roles@.subrange(0, k + 1),
                user@,
                balance,
            ));
        }
        k = k + 1;
    }
    assert(policy.roles@.subrange(0, policy.roles.len() as int) == policy.roles@);
    roles
}

/// Whether one of the permissions allows adding a transfer proposal.
pub fn grants_add_proposal(permissions: &Vec<String>) -> (r: bool)
    ensures
        r == role_grants(permissions@),
{
    let exact = String::from_str("transfer:AddProposal");
    let any_action = String::from_str("transfer:*");
    let any_kind = String::from_str("*:AddProposal");
    let anything = String::from_str("*:*");
    let mut i: usize = 0;
    while i < permissions.len()
        invariant
            i <= permissions.len(),
            exact@ == "transfer:AddProposal"@,
            any_action@ == "transfer:*"@,
            any_kind@ == "*:AddProposal"@,
            anything@ == "*:*"@,
            forall|j: int| 0 <= j < i ==> !grants_transfer_proposal(#[trigger] permissions@[j]@),
        decreases permissions.len() - i,
    {
        let p = &permissions[i];
        if *p == exact || *p == any_action || *p == any_kind || *p == anything {
            return true;
        }
        i = i + 1;
    }
    false
}

/// Whether `user`, who holds `balance`, may add a transfer proposal under
/// `policy`: some role that applies to them grants it.
pub fn can_add_proposal(user: &String, balance: u128, policy: &Policy) -> (r: bool)
    ensures
        r == may_add_proposal(*policy, user@, balance),
{
    let roles = get_user_roles(user, balance, policy);
    let ghost matched = user_roles(policy.roles@, user@, balance);
    let mut allowed = false;
    let mut j: usize = 0;
    while j < roles.len()
        invariant
            j <= roles.len(),
            roles@.map_values(|e: (String, Vec<String>)| (e.0, e.1@)) == matched,
            allowed == exists|q: int| 0 <= q < j && role_grants(#[trigger] matched[q].1),
        decreases roles.len() - j,
    {
        let granted = grants_add_proposal(&roles[j].1);
        assert(matched[j as int].1 == roles@[j as int].1@);
        allowed = allowed || granted;
        j = j + 1;
    }
    allowed
}

} // verus!
