//! Picks one container name out of a listing, by exact name or by substring.

use vstd::prelude::*;

verus! {

/// `p` occurs in `s` starting at position `i`.
pub open spec fn occurs_at(s: Seq<char>, p: Seq<char>, i: int) -> bool {
    0 <= i && i + p.len() <= s.len() && s.subrange(i, i + p.len()) == p
}

/// `p` is a contiguous piece of `s` (the empty pattern is a piece of every name).
pub open spec fn has_substring(s: Seq<char>, p: Seq<char>) -> bool {
    exists|i: int| occurs_at(s, p, i)
}

/// The names of `names` that contain `p`, in listing order.
pub open spec fn substring_matches(names: Seq<Seq<char>>, p: Seq<char>) -> Seq<Seq<char>>
    decreases names.len(),
{
    if names.len() == 0 {
        Seq::empty()
    } else {
        let rest = substring_matches(names.drop_last(), p);
        if has_substring(names.last(), p) {
            rest.push(names.last())
        } else {
            rest
        }
    }
}

/// What a listing and a pattern resolve to, over character sequences.
pub ghost enum Resolution {
    Resolved(Seq<char>),
    NotFound,
    Ambiguous(Seq<Seq<char>>),
}

/// The outcome for a set of candidates: none, exactly one, or several.
pub open spec fn outcome_of(candidates: Seq<Seq<char>>) -> Resolution {
    if candidates.len() == 0 {
        Resolution::NotFound
    } else if candidates.len() == 1 {
        Resolution::Resolved(candidates[0])
    } else {
        Resolution::Ambiguous(candidates)
    }
}

/// Resolution of `p` against `names`: in exact mode the name equal to `p`,
/// otherwise the names containing `p`, with several matches never narrowed.
pub open spec fn resolution(names: Seq<Seq<char>>, p: Seq<char>, exact: bool) -> Resolution {
    if exact {
        if names.contains(p) {
            Resolution::Resolved(p)
        } else {
            Resolution::NotFound
        }
    } else {
        outcome_of(substring_matches(names, p))
    }
}

/// Positions in `names` of the names that contain `p`, in increasing order.
spec fn match_positions(names: Seq<Seq<char>>, p: Seq<char>) -> Seq<int>
    decreases names.len(),
{
    if names.len() == 0 {
        Seq::empty()
    } else {
        let rest = match_positions(names.drop_last(), p);
        if has_substring(names.last(), p) {
            rest.push(names.len() - 1)
        } else {
            rest
        }
    }
}

/// The substring matches are exactly the names at the match positions, which
/// increase and cover every matching name.
proof fn lemma_match_positions(names: Seq<Seq<char>>, p: Seq<char>)
    ensures
        substring_matches(names, p).len() == match_positions(names, p).len(),
        forall|k: int|
            0 <= k < match_positions(names, p).len() ==> {
                let i = #[trigger] match_positions(names, p)[k];
                &&& 0 <= i < names.len()
                &&& has_substring(names[i], p)
                &&& substring_matches(names, p)[k] == names[i]
            },
        forall|k1: int, k2: int|
            0 <= k1 < k2 < match_positions(names, p).len() ==> match_positions(names, p)[k1]
                < match_positions(names, p)[k2],
        forall|i: int|
            0 <= i < names.len() && #[trigger] has_substring(names[i], p) ==> exists|k: int|
                0 <= k < match_positions(names, p).len() && match_positions(names, p)[k] == i,
    decreases names.len(),
{
    if names.len() > 0 {
        let init = names.drop_last();
        lemma_match_positions(init, p);
        let n = names.len() - 1;
        assert forall|i: int|
            0 <= i < names.len() && #[trigger] has_substring(names[i], p) implies exists|k: int|
                0 <= k < match_positions(names, p).len() && match_positions(names, p)[k] == i by {
            if i < n {
                assert(init[i] == names[i]);
                assert(has_substring(init[i], p));
                let k = choose|k: int|
                    0 <= k < match_positions(init, p).len() && match_positions(init, p)[k] == i;
                assert(match_positions(names, p)[k] == i);
            } else {
                let k = match_positions(init, p).len() as int;
                assert(match_positions(names, p)[k] == i);
            }
        }
    }
}

/// In exact mode the result is `Resolved(c)` exactly when `c` is a listed name
/// equal to the pattern, `NotFound` otherwise, and never `Ambiguous`.
pub proof fn lemma_exact_mode(names: Seq<Seq<char>>, p: Seq<char>)
    ensures
        forall|c: Seq<char>|
            resolution(names, p, true) == Resolution::Resolved(c) <==> (names.contains(c) && c
                == p),
        resolution(names, p, true) is NotFound <==> !names.contains(p),
        !(resolution(names, p, true) is Ambiguous),
{
}

/// In substring mode the result is `Resolved(c)` exactly when `c` is the only
/// listed name containing the pattern, `Ambiguous` exactly when two or more
/// listed names contain it, and `NotFound` exactly when none does.
pub proof fn lemma_substring_mode(names: Seq<Seq<char>>, p: Seq<char>)
    ensures
        forall|c: Seq<char>|
            resolution(names, p, false) == Resolution::Resolved(c) <==> exists|i: int|
                0 <= i < names.len() && names[i] == c && has_substring(names[i], p) && forall|
                    j: int,
                |
                    0 <= j < names.len() && j != i ==> !has_substring(#[trigger] names[j], p),
        resolution(names, p, false) is Ambiguous <==> exists|i: int, j: int|
            0 <= i < j < names.len() && has_substring(#[trigger] names[i], p) && has_substring(
                #[trigger] names[j],
                p,
            ),
        resolution(names, p, false) is NotFound <==> forall|i: int|
            0 <= i < names.len() ==> !has_substring(#[trigger] names[i], p),
{
    lemma_match_positions(names, p);
    let m = substring_matches(names, p);
    let ix = match_positions(names, p);
    if ix.len() > 0 {
        assert(has_substring(names[ix[0]], p));
    }
    if ix.len() >= 2 {
        assert(ix[0] < ix[1]);
        assert(has_substring(names[ix[0]], p) && has_substring(names[ix[1]], p));
    }
    assert forall|c: Seq<char>|
        resolution(names, p, false) == Resolution::Resolved(c) implies exists|i: int|
            0 <= i < names.len() && names[i] == c && has_substring(names[i], p) && forall|j: int|
                0 <= j < names.len() && j != i ==> !has_substring(#[trigger] names[j], p) by {
        let i = ix[0];
        assert forall|j: int| 0 <= j < names.len() && j != i implies !has_substring(
            #[trigger] names[j],
            p,
        ) by {
            if has_substring(names[j], p) {
                let k = choose|k: int| 0 <= k < ix.len() && ix[k] == j;
                assert(k == 0);
            }
        }
    }
    assert forall|c: Seq<char>|
        (exists|i: int|
            0 <= i < names.len() && names[i] == c && has_substring(names[i], p) && forall|j: int|
                0 <= j < names.len() && j != i ==> !has_substring(
                    #[trigger] names[j],
                    p,
                )) implies resolution(names, p, false) == Resolution::Resolved(c) by {
        let i = choose|i: int|
            0 <= i < names.len() && names[i] == c && has_substring(names[i], p) && forall|j: int|
                0 <= j < names.len() && j != i ==> !has_substring(#[trigger] names[j], p);
        let k = choose|k: int| 0 <= k < ix.len() && ix[k] == i;
        if ix.len() >= 2 {
            assert(has_substring(names[ix[1 - k]], p));
        }
        assert(ix.len() == 1);
    }
    assert((exists|i: int, j: int|
        0 <= i < j < names.len() && has_substring(#[trigger] names[i], p) && has_substring(
            #[trigger] names[j],
            p,
        )) ==> ix.len() >= 2) by {
        if exists|i: int, j: int|
            0 <= i < j < names.len() && has_substring(#[trigger] names[i], p) && has_substring(
                #[trigger] names[j],
                p,
            ) {
            let (i, j) = choose|i: int, j: int|
                0 <= i < j < names.len() && has_substring(#[trigger] names[i], p)
                    && has_substring(#[trigger] names[j], p);
            let ki = choose|k: int| 0 <= k < ix.len() && ix[k] == i;
            let kj = choose|k: int| 0 <= k < ix.len() && ix[k] == j;
            assert(ki != kj);
        }
    }
}

/// `Ambiguous` lists exactly the listed names that contain the pattern, in
/// listing order: each candidate is taken from a strictly later position than
/// the one before it, and every matching position is taken.
pub proof fn lemma_ambiguous_keeps_order(names: Seq<Seq<char>>, p: Seq<char>, cs: Seq<Seq<char>>)
    requires
        resolution(names, p, false) == Resolution::Ambiguous(cs),
    ensures
        exists|pos: Seq<int>|
            {
                &&& pos.len() == cs.len()
                &&& forall|k: int|
                    0 <= k < pos.len() ==> 0 <= #[trigger] pos[k] < names.len() && has_substring(
                        names[pos[k]],
                        p,
                    ) && cs[k] == names[pos[k]]
                &&& forall|k1: int, k2: int| 0 <= k1 < k2 < pos.len() ==> pos[k1] < pos[k2]
                &&& forall|i: int|
                    0 <= i < names.len() && #[trigger] has_substring(names[i], p) ==> exists|
                        k: int,
                    |
                        0 <= k < pos.len() && pos[k] == i
            },
{
    lemma_match_positions(names, p);
    let pos = match_positions(names, p);
    assert(cs == substring_matches(names, p));
}

/// Resolving the same pattern against the same listing twice gives the same
/// result.
pub proof fn lemma_resolve_deterministic(
    list: Seq<String>,
    p: Seq<char>,
    exact: bool,
    first: MatchResult,
    second: MatchResult,
)
    requires
        first@ == resolution(names_view(list), p, exact),
        second@ == resolution(names_view(list), p, exact),
    ensures
        first@ == second@,
{
}

/// The character sequences of a list of names.
pub open spec fn names_view(list: Seq<String>) -> Seq<Seq<char>> {
    list.map_values(|s: String| s@)
}

/// The outcome of resolving a pattern against a container listing.
#[derive(Debug, Clone, PartialEq, Eq)]
pub enum MatchResult {
    /// Exactly one container was selected.
    Resolved(String),
    /// No container matched.
    NotFound,
    /// Several containers matched, in listing order.
    Ambiguous(Vec<String>),
}

impl View for MatchResult {
    type V = Resolution;

    open spec fn view(&self) -> Resolution {
        match self {
            MatchResult::Resolved(c) => Resolution::Resolved(c@),
            MatchResult::NotFound => Resolution::NotFound,
            MatchResult::Ambiguous(cs) => Resolution::Ambiguous(names_view(cs@)),
        }
    }
}

/// The characters of `s`, in order.
pub(crate) fn chars_of(s: &str) -> (r: Vec<char>)
    ensures
        r@ == s@,
{
    let n = s.unicode_len();
    let mut r: Vec<char> = Vec::new();
    let mut i: usize = 0;
    while i < n
        invariant
            n == s@.len(),
            i <= n,
            r@ == s@.subrange(0, i as int),
        decreases n - i,
    {
        r.push(s.get_char(i));
        i += 1;
    }
    r
}

/// Whether `p` occurs in `s` at position `i`.
fn occurs_at_exec(s: &Vec<char>, p: &Vec<char>, i: usize) -> (r: bool)
    requires
        i + p@.len() <= s@.len(),
    ensures
        r == occurs_at(s@, p@, i as int),
{
    let n = s.len();
    let mut k: usize = 0;
    while k < p.len()
        invariant
            i + p@.len() <= s@.len(),
            n == s@.len(),
            k <= p@.len(),
            forall|j: int| 0 <= j < k ==> s@[i + j] == p@[j],
        decreases p@.len() - k,
    {
        if s[i + k] != p[k] {
            assert(s@.subrange(i as int, i + p@.len())[k as int] != p@[k as int]);
            return false;
        }
        k += 1;
    }
    assert(s@.subrange(i as int, i + p@.len()) =~= p@);
    true
}

/// Whether the name `name` contains `pattern` as a contiguous piece
/// (case-sensitive, anywhere in the name).
pub fn contains_pattern(name: &str, pattern: &str) -> (r: bool)
    ensures
        r == has_substring(name@, pattern@),
{
    let s = chars_of(name);
    let p = chars_of(pattern);
    if p.len() > s.len() {
        assert(forall|i: int| !occurs_at(s@, p@, i));
        return false;
    }
    let last = s.len() - p.len();
    let mut i: usize = 0;
    while i < last
        invariant
            s@ == name@,
            p@ == pattern@,
            last == s@.len() - p@.len(),
            i <= last,
            forall|j: int| 0 <= j < i ==> !occurs_at(s@, p@, j),
        decreases last - i,
    {
        if occurs_at_exec(&s, &p, i) {
            return true;
        }
        i += 1;
    }
    let r = occurs_at_exec(&s, &p, last);
    assert(!r ==> forall|j: int| !occurs_at(s@, p@, j));
    r
}

/// Resolves `pattern` against `list`, the container names in the runtime's
/// order. In exact mode the name equal to the pattern is chosen; otherwise
/// the names containing it are collected, and a single one is chosen while
/// several are reported as ambiguous, never narrowed to one.
pub fn resolve(pattern: &str, list: &Vec<String>, exact: bool) -> (r: MatchResult)
    ensures
        r@ == resolution(names_view(list@), pattern@, exact),
{
    let ghost names = names_view(list@);
    if exact {
        let target = String::from_str(pattern);
        let mut i: usize = 0;
        while i < list.len()
            invariant
                exact,
                names == names_view(list@),
                target@ == pattern@,
                i <= list@.len(),
                forall|j: int| 0 <= j < i ==> names[j] != pattern@,
            decreases list@.len() - i,
        {
            if list[i] == target {
                assert(names[i as int] == list@[i as int]@);
                assert(names.len() == list@.len());
                assert(names.contains(pattern@));
                let c = list[i].clone();
                return MatchResult::Resolved(c);
            }
            i += 1;
        }
        assert(!names.contains(pattern@));
        return MatchResult::NotFound;
    }
    let mut found: Vec<String> = Vec::new();
    let mut i: usize = 0;
    while i < list.len()
        invariant
            !exact,
            names == names_view(list@),
            i <= list@.len(),
            names_view(found@) == substring_matches(names.subrange(0, i as int), pattern@),
        decreases list@.len() - i,
    {
        let ghost before = names.subrange(0, i as int);
        let ghost after = names.subrange(0, i + 1);
        assert(after.drop_last() =~= before);
        assert(after.last() == list@[i as int]@);
        if contains_pattern(list[i].as_str(), pattern) {
            found.push(list[i].clone());
            assert(names_view(found@) =~= substring_matches(after, pattern@));
        }
        i += 1;
    }
    assert(names.subrange(0, list@.len() as int) =~= names);
    if found.len() == 0 {
        MatchResult::NotFound
    } else if found.len() == 1 {
        MatchResult::Resolved(found[0].clone())
    } else {
        MatchResult::Ambiguous(found)
    }
}

} // verus!
