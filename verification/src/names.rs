use vstd::prelude::*;
use crate::text::{views, nat_text, lemma_nat_text, str_eq, u128_text, concat3};

verus! {

/// `name-i`: the `i`-th candidate tried when `name` is taken.
pub open spec fn candidate(name: Seq<char>, i: nat) -> Seq<char> {
    name + "-"@ + nat_text(i)
}

/// The first `i` from `from` on whose candidate is free; the search gives up at
/// `seen.len() + 2`, past which some candidate is always free.
pub open spec fn first_free(name: Seq<char>, seen: Seq<Seq<char>>, from: nat) -> nat
    decreases seen.len() + 2 - from,
{
    if from >= seen.len() + 2 || !seen.contains(candidate(name, from)) {
        from
    } else {
        first_free(name, seen, from + 1)
    }
}

/// The name that `deduplicate_name` gives `name` when the names in `seen` are taken:
/// `name` itself where it is free, else `name-2`, `name-3`, ... whichever comes first
/// that is free.
pub open spec fn dedup_name(name: Seq<char>, seen: Seq<Seq<char>>) -> Seq<char> {
    if !seen.contains(name) {
        name
    } else {
        candidate(name, first_free(name, seen, 2))
    }
}

/// Distinct numbers give distinct candidates.
pub proof fn lemma_candidate_injective(name: Seq<char>, i: nat, j: nat)
    requires
        candidate(name, i) == candidate(name, j),
    ensures
        i == j,
{
    reveal_strlit("-");
    let a = candidate(name, i);
    let b = candidate(name, j);
    assert(a.skip(name.len() as int + 1) =~= nat_text(i));
    assert(b.skip(name.len() as int + 1) =~= nat_text(j));
    lemma_nat_text(i);
    lemma_nat_text(j);
}

/// The candidates `2 .. i` as a set.
pub open spec fn candidates_below(name: Seq<char>, i: nat) -> Set<Seq<char>> {
    Set::new(|s: Seq<char>| exists|k: nat| 2 <= k < i && s == candidate(name, k))
}

proof fn lemma_candidates_below(name: Seq<char>, i: nat)
    requires
        i >= 2,
    ensures
        candidates_below(name, i).finite(),
        candidates_below(name, i).len() == i - 2,
    decreases i,
{
    if i == 2 {
        assert(candidates_below(name, i) =~= Set::<Seq<char>>::empty());
    } else {
        let j = (i - 1) as nat;
        lemma_candidates_below(name, j);
        let c = candidate(name, j);
        assert(candidates_below(name, i) =~= candidates_below(name, j).insert(c)) by {
            assert forall|s: Seq<char>| candidates_below(name, i).contains(s) implies candidates_below(name, j).insert(c).contains(s) by {
                let k = choose|k: nat| 2 <= k < i && s == candidate(name, k);
                if k != j {
                    assert(candidates_below(name, j).contains(s));
                }
            }
            assert forall|s: Seq<char>| candidates_below(name, j).insert(c).contains(s) implies candidates_below(name, i).contains(s) by {
                if s == c {
                    assert(2 <= j < i && s == candidate(name, j));
                } else {
                    let k = choose|k: nat| 2 <= k < j && s == candidate(name, k);
                    assert(2 <= k < i && s == candidate(name, k));
                }
            }
        }
        assert(!candidates_below(name, j).contains(c)) by {
            if candidates_below(name, j).contains(c) {
                let k = choose|k: nat| 2 <= k < j && c == candidate(name, k);
                lemma_candidate_injective(name, k, j);
            }
        }
    }
}

/// If the candidates `2 .. i` are all taken, there are at least `i - 2` taken names.
pub proof fn lemma_taken_bound(name: Seq<char>, seen: Seq<Seq<char>>, i: nat)
    requires
        i >= 2,
        forall|k: nat| 2 <= k < i ==> seen.contains(#[trigger] candidate(name, k)),
    ensures
        i - 2 <= seen.len(),
{
    lemma_candidates_below(name, i);
    vstd::seq_lib::seq_to_set_is_finite(seen);
    assert(candidates_below(name, i).subset_of(seen.to_set())) by {
        assert forall|s: Seq<char>| candidates_below(name, i).contains(s) implies seen.to_set().contains(s) by {
            let k = choose|k: nat| 2 <= k < i && s == candidate(name, k);
            assert(seen.contains(candidate(name, k)));
        }
    }
    vstd::set_lib::lemma_len_subset(candidates_below(name, i), seen.to_set());
    seen.lemma_cardinality_of_set();
}

/// The name `deduplicate_name` returns is free, and every candidate before it is taken.
pub proof fn lemma_dedup_name(name: Seq<char>, seen: Seq<Seq<char>>)
    ensures
        !seen.contains(dedup_name(name, seen)),
        seen.contains(name) ==> exists|i: nat| #![trigger candidate(name, i)]
            2 <= i && dedup_name(name, seen) == candidate(name, i)
            && forall|k: nat| 2 <= k < i ==> seen.contains(#[trigger] candidate(name, k)),
{
    if seen.contains(name) {
        lemma_first_free(name, seen, 2);
    }
}

proof fn lemma_first_free(name: Seq<char>, seen: Seq<Seq<char>>, from: nat)
    requires
        2 <= from <= seen.len() + 2,
        forall|k: nat| 2 <= k < from ==> seen.contains(#[trigger] candidate(name, k)),
    ensures
        from <= first_free(name, seen, from),
        !seen.contains(candidate(name, first_free(name, seen, from))),
        forall|k: nat| 2 <= k < first_free(name, seen, from) ==> seen.contains(#[trigger] candidate(name, k)),
    decreases seen.len() + 2 - from,
{
    if seen.contains(candidate(name, from)) {
        lemma_taken_bound(name, seen, from + 1);
        lemma_first_free(name, seen, from + 1);
    }
}

/// Whether `v` holds a string equal to `s`.
pub fn contains_string(v: &Vec<String>, s: &str) -> (r: bool)
    ensures
        r == views(v@).contains(s@),
{
    let mut i: usize = 0;
    while i < v.len()
        invariant
            i <= v@.len(),
            forall|j: int| 0 <= j < i ==> v@[j]@ != s@,
        decreases v@.len() - i,
    {
        if str_eq(v[i].as_str(), s) {
            assert(views(v@)[i as int] == s@);
            return true;
        }
        i = i + 1;
    }
    proof {
        if views(v@).contains(s@) {
            let j = choose|j: int| 0 <= j < views(v@).len() && views(v@)[j] == s@;
            assert(v@[j]@ == s@);
        }
    }
    false
}

/// Deduplicate a command name by appending a numeric suffix if needed, and record the
/// name given out as taken.
pub fn deduplicate_name(name: String, seen: &mut Vec<String>) -> (r: String)
    ensures
        r@ == dedup_name(name@, views(old(seen)@)),
        !views(old(seen)@).contains(r@),
        views(final(seen)@) == views(old(seen)@).push(r@),
{
    let ghost s0 = views(seen@);
    proof {
        lemma_dedup_name(name@, s0);
    }
    if !contains_string(seen, name.as_str()) {
        seen.push(name.clone());
        assert(views(seen@) =~= s0.push(name@));
        return name;
    }
    let mut i: u128 = 2;
    let n = seen.len();
    loop
        invariant
            2 <= i <= s0.len() + 2,
            s0 == views(seen@),
            s0 == views(old(seen)@),
            s0.len() == seen@.len() <= usize::MAX,
            s0.contains(name@),
            forall|k: nat| 2 <= k < i ==> s0.contains(#[trigger] candidate(name@, k)),
            first_free(name@, s0, 2) == first_free(name@, s0, i as nat),
        decreases s0.len() + 2 - i,
    {
        let num = u128_text(i);
        let c = concat3(name.as_str(), "-", num.as_str());
        assert(c@ == candidate(name@, i as nat));
        if !contains_string(seen, c.as_str()) {
            assert(first_free(name@, s0, i as nat) == i as nat);
            assert(dedup_name(name@, s0) == c@);
            seen.push(c.clone());
            assert(views(seen@) =~= s0.push(c@));
            return c;
        }
        proof {
            lemma_taken_bound(name@, s0, (i + 1) as nat);
        }
        i = i + 1;
    }
}

/// Whether `s` names an HTTP method that OpenAPI path items list operations under.
pub open spec fn is_method_name(s: Seq<char>) -> bool {
    ||| s == "get"@
    ||| s == "post"@
    ||| s == "put"@
    ||| s == "patch"@
    ||| s == "delete"@
    ||| s == "head"@
    ||| s == "options"@
}

pub fn is_http_method(s: &str) -> (r: bool)
    ensures
        r == is_method_name(s@),
{
    str_eq(s, "get") || str_eq(s, "post") || str_eq(s, "put") || str_eq(s, "patch") || str_eq(s, "delete")
        || str_eq(s, "head") || str_eq(s, "options")
}

} // verus!
