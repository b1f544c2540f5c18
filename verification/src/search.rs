//! Fuzzy search over the index: name matches rank first, exact and prefix
//! matches first of all. The fuzzy score itself comes from `nucleo_matcher`.

use vstd::prelude::*;

use crate::index::Index;
use crate::model::Package;
use crate::text::{
    chars_eq, chars_less, chars_occur_at, find_chars, has_prefix, has_substring, lowercase,
    seq_less, to_chars, to_lower, trim, trim_chars, string_of_all, lemma_less_irreflexive,
    lemma_less_total, lemma_less_transitive,
};

verus! {

/// The score `nucleo_matcher` gives `haystack` for the pattern `query`
/// (case ignored, smart normalization), nothing when it does not match.
pub uninterp spec fn fuzzy_score_of(query: Seq<char>, haystack: Seq<char>) -> Option<u32>;

/// `Pattern::score` of `nucleo_matcher` for one text, with a fresh matcher
/// (`Config::DEFAULT`) and the pattern parsed with `CaseMatching::Ignore` and
/// `Normalization::Smart`. The result is named by `fuzzy_score_of`; nothing
/// more of it is stated.
#[verifier::external_body]
fn fuzzy_score(query: &str, haystack: &str) -> (r: Option<u32>)
    ensures
        r == fuzzy_score_of(query@, haystack@),
{
    let mut matcher = nucleo_matcher::Matcher::new(nucleo_matcher::Config::DEFAULT);
    let pattern = nucleo_matcher::pattern::Pattern::parse(
        query,
        nucleo_matcher::pattern::CaseMatching::Ignore,
        nucleo_matcher::pattern::Normalization::Smart,
    );
    let mut buf = Vec::new();
    pattern.score(nucleo_matcher::Utf32Str::new(haystack, &mut buf), &mut matcher)
}

/// How far a name answers the query `q` (its lower-case form `ql`): 3 for
/// the query itself, 2 for a name that starts with it, 1 for another name the
/// fuzzy matcher accepts, 0 when only the description can match.
pub open spec fn name_tier(p: Package, q: Seq<char>) -> nat {
    let name_l = lowercase(p.name@);
    let ql = lowercase(q);
    if name_l == ql {
        3
    } else if has_prefix(name_l, ql) {
        2
    } else if fuzzy_score_of(q, p.name@) is Some && fuzzy_score_of(q, p.name@)->0 > 0 {
        1
    } else {
        0
    }
}

/// What a tier adds to a score: more than any score within a tier can reach,
/// so a higher tier always ranks first.
pub open spec fn tier_weight(t: nat) -> nat {
    if t == 0 {
        0
    } else if t == 1 {
        TIER as nat
    } else if t == 2 {
        (2 * TIER) as nat
    } else {
        (3 * TIER) as nat
    }
}

/// The weight of one tier: 2^40, above any fuzzy score times four plus bonuses.
pub const TIER: u64 = 1099511627776;

/// How well `p` matches the (trimmed, non-empty) query `q`. Its tier first
/// (exact name, then names that start with the query, then other name
/// matches, then description matches); within a tier the fuzzy score of its
/// name times four, or else of its description, plus 100 000 for a name that
/// is the query, 20 000 for one that starts with it, 5 000 for one that
/// contains it (all without case), and 500 for an installed package. Nothing
/// when neither name nor description matches.
pub open spec fn match_score(p: Package, q: Seq<char>) -> Option<nat> {
    let by_name: nat = match fuzzy_score_of(q, p.name@) {
        Some(s) => (s * 4) as nat,
        None => 0,
    };
    let base: nat = if by_name == 0 {
        match fuzzy_score_of(q, p.description@) {
            Some(s) => s as nat,
            None => 0,
        }
    } else {
        by_name
    };
    if base == 0 {
        None
    } else {
        Some(tier_weight(name_tier(p, q)) + within_tier(p, q, base))
    }
}

/// The part of a score that orders packages of one tier.
pub open spec fn within_tier(p: Package, q: Seq<char>, base: nat) -> nat {
    let name_l = lowercase(p.name@);
    let ql = lowercase(q);
    let bonus: nat = if name_l == ql {
        100_000
    } else if has_prefix(name_l, ql) {
        20_000
    } else if has_substring(name_l, ql) {
        5_000
    } else {
        0
    };
    base + bonus + if p.installed is Some {
        500nat
    } else {
        0nat
    }
}

/// Package `a` ranks before package `b`: a higher score, then the name in
/// order, then the earlier position.
pub open spec fn ranks_before(pkgs: Seq<Package>, q: Seq<char>, a: int, b: int) -> bool {
    let sa = match_score(pkgs[a], q)->0;
    let sb = match_score(pkgs[b], q)->0;
    ||| sa > sb
    ||| sa == sb && seq_less(pkgs[a].name@, pkgs[b].name@)
    ||| sa == sb && pkgs[a].name@ == pkgs[b].name@ && a < b
}

/// Package `i` matches the query.
pub open spec fn matches_query(pkgs: Seq<Package>, q: Seq<char>, i: int) -> bool {
    0 <= i < pkgs.len() && match_score(pkgs[i], q) is Some
}

/// How many of the first `n` packages match.
pub open spec fn count_matches(pkgs: Seq<Package>, q: Seq<char>, n: int) -> nat
    decreases n,
{
    if n <= 0 {
        0
    } else {
        count_matches(pkgs, q, n - 1) + if matches_query(pkgs, q, n - 1) {
            1nat
        } else {
            0nat
        }
    }
}

/// `pos` is the best `limit` matches among the first `n` packages, best first:
/// each matches, each ranks before the next, there are as many as `limit`
/// allows, and every match left out ranks after all of them.
pub open spec fn is_top(pkgs: Seq<Package>, q: Seq<char>, n: int, limit: nat, pos: Seq<int>) -> bool {
    &&& pos.len() == if count_matches(pkgs, q, n) < limit {
        count_matches(pkgs, q, n)
    } else {
        limit
    }
    &&& forall|k: int| 0 <= k < pos.len() ==> 0 <= #[trigger] pos[k] < n && matches_query(pkgs, q, pos[k])
    &&& forall|a: int, b: int|
        0 <= a < b < pos.len() ==> ranks_before(pkgs, q, #[trigger] pos[a], #[trigger] pos[b])
    &&& forall|j: int, k: int|
        #![trigger pos[k], matches_query(pkgs, q, j)]
        0 <= j < n && matches_query(pkgs, q, j) && !pos.contains(j) && 0 <= k < pos.len()
            ==> ranks_before(pkgs, q, pos[k], j)
}

/// What a search answers: nothing for a blank query, else the best `limit`
/// matches of the trimmed query, best first.
pub open spec fn is_search_result(pkgs: Seq<Package>, query: Seq<char>, limit: nat, pos: Seq<int>) -> bool {
    if trim(query).len() == 0 {
        pos.len() == 0
    } else {
        is_top(pkgs, trim(query), pkgs.len() as int, limit, pos)
    }
}

proof fn lemma_ranks_strict(pkgs: Seq<Package>, q: Seq<char>, a: int, b: int)
    ensures
        !(ranks_before(pkgs, q, a, b) && ranks_before(pkgs, q, b, a)),
        a != b ==> ranks_before(pkgs, q, a, b) || ranks_before(pkgs, q, b, a),
        !ranks_before(pkgs, q, a, a),
{
    lemma_less_total(pkgs[a].name@, pkgs[b].name@);
    lemma_less_irreflexive(pkgs[a].name@);
}

proof fn lemma_ranks_transitive(pkgs: Seq<Package>, q: Seq<char>, a: int, b: int, c: int)
    requires
        ranks_before(pkgs, q, a, b),
        ranks_before(pkgs, q, b, c),
    ensures
        ranks_before(pkgs, q, a, c),
{
    let na = pkgs[a].name@;
    let nb = pkgs[b].name@;
    let nc = pkgs[c].name@;
    if seq_less(na, nb) && seq_less(nb, nc) {
        lemma_less_transitive(na, nb, nc);
    }
}

/// What the search promises of its order: a package whose name is the query
/// ranks before every other match, then names that start with the query, then
/// the other name matches, and every name match before a package found by
/// its description only.
pub proof fn law_name_matches_rank_first(pkgs: Seq<Package>, q: Seq<char>, a: int, b: int)
    requires
        0 <= a < pkgs.len(),
        0 <= b < pkgs.len(),
        match_score(pkgs[a], q) is Some,
        match_score(pkgs[b], q) is Some,
        name_tier(pkgs[a], q) > name_tier(pkgs[b], q),
    ensures
        ranks_before(pkgs, q, a, b),
{
    let pa = pkgs[a];
    let pb = pkgs[b];
    let sb = match_score(pb, q)->0;
    let by_name: nat = match fuzzy_score_of(q, pb.name@) {
        Some(s) => (s * 4) as nat,
        None => 0,
    };
    assert(by_name < 0x4_0000_0000);
    assert(sb < tier_weight(name_tier(pb, q)) + 0x8_0000_0000);
}

/// A search answers at most `limit` packages, none twice, each one that
/// matches the trimmed query.
pub proof fn law_search_result_is_a_list(pkgs: Seq<Package>, query: Seq<char>, limit: nat, pos: Seq<int>)
    requires
        is_search_result(pkgs, query, limit, pos),
    ensures
        pos.len() <= limit,
        forall|a: int, b: int| 0 <= a < b < pos.len() ==> pos[a] != pos[b],
        forall|k: int| 0 <= k < pos.len() ==> matches_query(pkgs, trim(query), #[trigger] pos[k]),
{
    if trim(query).len() != 0 {
        assert forall|a: int, b: int| 0 <= a < b < pos.len() implies pos[a] != pos[b] by {
            assert(ranks_before(pkgs, trim(query), pos[a], pos[b]));
            lemma_ranks_strict(pkgs, trim(query), pos[a], pos[b]);
        }
    }
}

impl Index {
    /// How well package `i` matches the query (`ql` is its lower-case form).
    fn score_at(&self, i: usize, q: &str, ql: &Vec<char>) -> (r: Option<u64>)
        requires
            i < self@.len(),
            ql@ == lowercase(q@),
        ensures
            match r {
                Some(s) => match_score(self@[i as int], q@) == Some(s as nat),
                None => match_score(self@[i as int], q@) is None,
            },
    {
        let p = &self.packages[i];
        let mut score: u64 = match fuzzy_score(q, p.name.as_str()) {
            Some(s) => s as u64 * 4,
            None => 0,
        };
        let by_name = score;
        if score == 0 {
            score = match fuzzy_score(q, p.description.as_str()) {
                Some(s) => s as u64,
                None => 0,
            };
            if score == 0 {
                return None;
            }
        }
        let name_l = to_chars(to_lower(p.name.as_str()).as_str());
        let tier: u64;
        if chars_eq(&name_l, ql) {
            score = score + 100_000;
            tier = 3;
        } else if chars_occur_at(&name_l, ql, 0) {
            score = score + 20_000;
            tier = 2;
        } else {
            if find_chars(&name_l, ql).is_some() {
                score = score + 5_000;
            }
            tier = if by_name > 0 { 1 } else { 0 };
        }
        if p.installed.is_some() {
            score = score + 500;
        }
        let weight: u64 = if tier == 3 {
            3 * TIER
        } else if tier == 2 {
            2 * TIER
        } else if tier == 1 {
            TIER
        } else {
            0
        };
        Some(score + weight)
    }

    /// Fuzzy search over name and description. Name matches rank first; exact
    /// and prefix matches first of all.
    pub fn search(&self, query: &str, limit: usize) -> (r: Vec<&Package>)
        ensures
            exists|pos: Seq<int>|
                is_search_result(self@, query@, limit as nat, pos) && r@.len() == pos.len() && forall|
                    k: int,
                | 0 <= k < pos.len() ==> #[trigger] r@[k] == &self@[pos[k]],
    {
        let qv = trim_chars(&to_chars(query));
        if qv.len() == 0 {
            let r: Vec<&Package> = Vec::new();
            assert(is_search_result(self@, query@, limit as nat, Seq::<int>::empty()));
            return r;
        }
        let q = string_of_all(&qv);
        let ql = to_chars(to_lower(q.as_str()).as_str());
        let ghost pkgs = self@;
        let ghost qs = q@;
        // The best so far, best first: score and position, and the names.
        let mut best: Vec<(u64, usize)> = Vec::new();
        let mut names: Vec<Vec<char>> = Vec::new();
        let ghost mut pos: Seq<int> = Seq::empty();
        let mut i: usize = 0;
        while i < self.packages.len()
            invariant
                i <= pkgs.len(),
                pkgs == self@,
                qs == q@,
                ql@ == lowercase(qs),
                best@.len() == names@.len() == pos.len(),
                forall|k: int|
                    0 <= k < pos.len() ==> (#[trigger] pos[k]) == best@[k].1 && names@[k]@
                        == pkgs[pos[k]].name@ && match_score(pkgs[pos[k]], qs) == Some(
                        best@[k].0 as nat,
                    ),
                is_top(pkgs, qs, i as int, limit as nat, pos),
                pos.len() < limit ==> forall|j: int|
                    0 <= j < i && matches_query(pkgs, qs, j) ==> pos.contains(j),
            decreases self.packages.len() - i,
        {
            let found = self.score_at(i, q.as_str(), &ql);
            match found {
                Some(s) => {
                    let name = to_chars(self.packages[i].name.as_str());
                    // Where it goes: after everything that ranks before it.
                    let mut at: usize = 0;
                    while at < best.len() && !Self::ahead(s, i, &name, best[at].0, best[at].1, &names[at])
                        invariant
                            at <= best@.len(),
                            best@.len() == names@.len() == pos.len(),
                            forall|k: int|
                                0 <= k < pos.len() ==> (#[trigger] pos[k]) == best@[k].1
                                    && names@[k]@ == pkgs[pos[k]].name@ && match_score(
                                    pkgs[pos[k]],
                                    qs,
                                ) == Some(best@[k].0 as nat),
                            i < pkgs.len(),
                            name@ == pkgs[i as int].name@,
                            match_score(pkgs[i as int], qs) == Some(s as nat),
                            forall|k: int| 0 <= k < at ==> !ranks_before(pkgs, qs, i as int, #[trigger] pos[k]),
                        decreases best.len() - at,
                    {
                        at = at + 1;
                    }
                    proof {
                        if at < pos.len() {
                            assert(ranks_before(pkgs, qs, i as int, pos[at as int]));
                        }
                        lemma_insert(pkgs, qs, pos, i as int, at as int, limit as nat);
                    }
                    if best.len() < limit {

                        best.insert(at, (s, i));
                        names.insert(at, name);
                        proof {
                            pos = pos.insert(at as int, i as int);
                        }
                    } else if at < best.len() {
                        best.insert(at, (s, i));
                        names.insert(at, name);
                        best.pop();
                        names.pop();
                        proof {
                            pos = pos.insert(at as int, i as int).drop_last();
                        }
                    }
                },
                None => {
                    proof {
                        lemma_skip(pkgs, qs, pos, i as int, limit as nat);
                    }
                },
            }
            i = i + 1;
        }
        let mut out: Vec<&Package> = Vec::new();
        let mut k: usize = 0;
        while k < best.len()
            invariant
                k <= best@.len(),
                best@.len() == pos.len(),
                pkgs == self@,
                forall|m: int| 0 <= m < pos.len() ==> (#[trigger] pos[m]) == best@[m].1,
                forall|m: int| 0 <= m < pos.len() ==> 0 <= #[trigger] pos[m] < pkgs.len(),
                out@.len() == k,
                forall|m: int| 0 <= m < k ==> #[trigger] out@[m] == &pkgs[pos[m]],
            decreases best.len() - k,
        {
            assert(0 <= pos[k as int] < pkgs.len());
            out.push(&self.packages[best[k].1]);
            k = k + 1;
        }
        assert(trim(query@) == qs);
        assert(is_search_result(self@, query@, limit as nat, pos));
        out
    }

    /// Whether the candidate (score `s`, position `i`, name `name`) ranks
    /// before the entry (score `t`, position `j`, name `other`).
    fn ahead(s: u64, i: usize, name: &Vec<char>, t: u64, j: usize, other: &Vec<char>) -> (r: bool)
        ensures
            r == (s > t || (s == t && seq_less(name@, other@)) || (s == t && name@ == other@ && i < j)),
    {
        if s != t {
            s > t
        } else if chars_less(name, other) {
            true
        } else {
            chars_eq(name, other) && i < j
        }
    }
}

/// The best-so-far list stays right when a package that does not match goes by.
proof fn lemma_skip(pkgs: Seq<Package>, q: Seq<char>, pos: Seq<int>, i: int, limit: nat)
    requires
        0 <= i < pkgs.len(),
        !matches_query(pkgs, q, i),
        is_top(pkgs, q, i, limit, pos),
        pos.len() < limit ==> forall|j: int| 0 <= j < i && matches_query(pkgs, q, j) ==> pos.contains(j),
    ensures
        is_top(pkgs, q, i + 1, limit, pos),
        pos.len() < limit ==> forall|j: int|
            0 <= j < i + 1 && matches_query(pkgs, q, j) ==> pos.contains(j),
{
    assert(count_matches(pkgs, q, i + 1) == count_matches(pkgs, q, i));
}

/// The best-so-far list with candidate `i` put at `at`: the last one drops out
/// when the list is full, and nothing changes when `i` would come after all.
pub open spec fn with_candidate(pos: Seq<int>, i: int, at: int, limit: nat) -> Seq<int> {
    if pos.len() < limit {
        pos.insert(at, i)
    } else if at < pos.len() {
        pos.insert(at, i).drop_last()
    } else {
        pos
    }
}

/// The best-so-far list stays right when a matching package goes by and is
/// put where it ranks (and the last one drops out when the list is full).
proof fn lemma_insert(pkgs: Seq<Package>, q: Seq<char>, pos: Seq<int>, i: int, at: int, limit: nat)
    requires
        0 <= i < pkgs.len(),
        matches_query(pkgs, q, i),
        is_top(pkgs, q, i, limit, pos),
        pos.len() < limit ==> forall|j: int| 0 <= j < i && matches_query(pkgs, q, j) ==> pos.contains(j),
        0 <= at <= pos.len(),
        forall|k: int| 0 <= k < at ==> !ranks_before(pkgs, q, i, #[trigger] pos[k]),
        at < pos.len() ==> ranks_before(pkgs, q, i, pos[at]),
    ensures
        is_top(pkgs, q, i + 1, limit, with_candidate(pos, i, at, limit)),
        with_candidate(pos, i, at, limit).len() < limit ==> forall|j: int|
            0 <= j < i + 1 && matches_query(pkgs, q, j) ==> with_candidate(pos, i, at, limit).contains(j),
{
    let n = pos.len();
    assert(count_matches(pkgs, q, i + 1) == count_matches(pkgs, q, i) + 1);
    // Everything before `at` ranks before `i`; `i` ranks before everything from `at` on.
    assert forall|k: int| 0 <= k < at implies ranks_before(pkgs, q, #[trigger] pos[k], i) by {
        lemma_ranks_strict(pkgs, q, pos[k], i);
    }
    assert forall|k: int| at <= k < n implies ranks_before(pkgs, q, i, #[trigger] pos[k]) by {
        if k > at {
            lemma_ranks_transitive(pkgs, q, i, pos[at], pos[k]);
        }
    }
    if n < limit || at < n {
        let ins = pos.insert(at, i);
        assert(ins.len() == n + 1);
        assert forall|k: int| 0 <= k < ins.len() implies 0 <= #[trigger] ins[k] < i + 1 && matches_query(
            pkgs,
            q,
            ins[k],
        ) by {
            if k < at {
                assert(ins[k] == pos[k]);
            } else if k > at {
                assert(ins[k] == pos[k - 1]);
            }
        }
        assert forall|a: int, b: int| 0 <= a < b < ins.len() implies ranks_before(
            pkgs,
            q,
            #[trigger] ins[a],
            #[trigger] ins[b],
        ) by {
            if a < at && b < at {
                assert(ins[a] == pos[a] && ins[b] == pos[b]);
            } else if a < at && b == at {
                assert(ins[a] == pos[a]);
            } else if a < at {
                assert(ins[a] == pos[a] && ins[b] == pos[b - 1]);
            } else if a == at {
                assert(ins[b] == pos[b - 1]);
            } else {
                assert(ins[a] == pos[a - 1] && ins[b] == pos[b - 1]);
            }
        }
        if n < limit {
            assert(n == count_matches(pkgs, q, i));
            assert forall|j: int| 0 <= j < i + 1 && matches_query(pkgs, q, j) implies ins.contains(j) by {
                if j < i {
                    assert(pos.contains(j));
                    let m = choose|m: int| 0 <= m < n && pos[m] == j;
                    if m < at {
                        assert(ins[m] == j);
                    } else {
                        assert(ins[m + 1] == j);
                    }
                } else {
                    assert(ins[at] == j);
                }
            }
        } else {
            let next = ins.drop_last();
            assert(n == limit);
            let z = pos[n - 1];
            assert forall|k: int| 0 <= k < next.len() implies 0 <= #[trigger] next[k] < i + 1
                && matches_query(pkgs, q, next[k]) by {
                assert(next[k] == ins[k]);
            }
            assert forall|a: int, b: int| 0 <= a < b < next.len() implies ranks_before(
                pkgs,
                q,
                #[trigger] next[a],
                #[trigger] next[b],
            ) by {
                assert(next[a] == ins[a] && next[b] == ins[b]);
            }
            assert forall|j: int, k: int|
                #![trigger next[k], matches_query(pkgs, q, j)]
                0 <= j < i + 1 && matches_query(pkgs, q, j) && !next.contains(j) && 0 <= k
                    < next.len() implies ranks_before(pkgs, q, next[k], j) by {
                assert(next[k] == ins[k]);
                assert(next[at] == i);
                if pos.contains(j) {
                    let m = choose|m: int| 0 <= m < n && pos[m] == j;
                    if m < n - 1 {
                        if m < at {
                            assert(next[m] == j);
                        } else {
                            assert(next[m + 1] == j);
                        }
                    }
                    assert(j == z);
                    // Everything kept ranks before the last one.
                    if k < at {
                        assert(ins[k] == pos[k]);
                    } else if k > at {
                        assert(ins[k] == pos[k - 1]);
                    } else {
                        if at < n - 1 {
                            lemma_ranks_transitive(pkgs, q, i, pos[at], z);
                        }
                    }
                } else {
                    // A match left out before: everything in the old list ranks before it.
                    if k < at {
                        assert(ins[k] == pos[k]);
                    } else if k > at {
                        assert(ins[k] == pos[k - 1]);
                    } else {
                        lemma_ranks_transitive(pkgs, q, i, pos[at], j);
                    }
                }
            }
        }
    } else {
        // The list is full and `i` ranks after all of it.
        assert forall|j: int, k: int|
            #![trigger pos[k], matches_query(pkgs, q, j)]
            0 <= j < i + 1 && matches_query(pkgs, q, j) && !pos.contains(j) && 0 <= k < pos.len()
                implies ranks_before(pkgs, q, pos[k], j) by {}
    }
}

} // verus!
