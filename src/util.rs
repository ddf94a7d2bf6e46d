//! Lists keyed by account, and what is known of them.
use vstd::prelude::*;

verus! {

/// `a` is one of the accounts of `s`.
pub open spec fn listed(s: Seq<String>, a: Seq<char>) -> bool {
    exists|i: int| 0 <= i < s.len() && s[i]@ == a
}

/// Some pair of `s` is keyed by `k`.
pub open spec fn has_key<V>(s: Seq<(String, V)>, k: Seq<char>) -> bool {
    exists|i: int| 0 <= i < s.len() && s[i].0@ == k
}

/// The place of the pair keyed by `k`, where there is one.
pub open spec fn key_pos<V>(s: Seq<(String, V)>, k: Seq<char>) -> int {
    choose|i: int| 0 <= i < s.len() && s[i].0@ == k
}

pub open spec fn keys_unique<V>(s: Seq<(String, V)>) -> bool {
    forall|i: int, j: int| 0 <= i < s.len() && 0 <= j < s.len() && i != j ==> s[i].0@ != s[j].0@
}

pub open spec fn no_dups(s: Seq<String>) -> bool {
    forall|i: int, j: int| 0 <= i < s.len() && 0 <= j < s.len() && i != j ==> s[i]@ != s[j]@
}

/// `after` is `before` without its pair keyed by `k`, if it had one.
pub open spec fn removed_key<V>(before: Seq<(String, V)>, after: Seq<(String, V)>, k: Seq<char>) -> bool {
    if has_key(before, k) {
        after == before.remove(key_pos(before, k))
    } else {
        after == before
    }
}

pub proof fn lemma_key_pos<V>(s: Seq<(String, V)>, k: Seq<char>, i: int)
    requires
        keys_unique(s),
        0 <= i < s.len(),
        s[i].0@ == k,
    ensures
        key_pos(s, k) == i,
{
    assert(has_key(s, k));
}

pub fn find_key<V>(v: &Vec<(String, V)>, k: &String) -> (r: Option<usize>)
    ensures
        match r {
            Some(i) => i < v.len() && v@[i as int].0@ == k@,
            None => !has_key(v@, k@),
        },
{
    let mut i: usize = 0;
    while i < v.len()
        invariant
            i <= v.len(),
            forall|j: int| 0 <= j < i ==> v@[j].0@ != k@,
        decreases v.len() - i,
    {
        if v[i].0 == *k {
            return Some(i);
        }
        i = i + 1;
    }
    None
}

pub fn is_listed(v: &Vec<String>, a: &String) -> (r: bool)
    ensures
        r == listed(v@, a@),
{
    let mut i: usize = 0;
    while i < v.len()
        invariant
            i <= v.len(),
            forall|j: int| 0 <= j < i ==> v@[j]@ != a@,
        decreases v.len() - i,
    {
        if v[i] == *a {
            return true;
        }
        i = i + 1;
    }
    false
}

pub fn copy_strings(v: &Vec<String>) -> (r: Vec<String>)
    ensures
        r@ == v@,
{
    let mut out: Vec<String> = Vec::new();
    let mut i: usize = 0;
    while i < v.len()
        invariant
            i <= v.len(),
            out@ == v@.subrange(0, i as int),
        decreases v.len() - i,
    {
        out.push(v[i].clone());
        i = i + 1;
    }
    out
}

} // verus!
