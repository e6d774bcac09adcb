//! Fuzzy ranking of aliases against a query.
//!
//! Each alias key is scored with sublime_fuzzy's best match; the scored
//! aliases are then put in one canonical order: score descending, then key
//! ascending, and aliases equal on both keep their input order.

use vstd::prelude::*;
use vstd::seq_lib::group_to_multiset_ensures;
use rayon::iter::{IndexedParallelIterator, IntoParallelRefIterator, ParallelIterator};
use sublime_fuzzy::FuzzySearch;
use crate::config::Alias;
use crate::order::{key_less, key_lt, key_le, lemma_key_lt_asymmetric, lemma_key_lt_total,
    lemma_key_lt_transitive};

verus! {

broadcast use group_to_multiset_ensures;

/// The score of the best full match of `query` in `target` under
/// sublime_fuzzy's default scoring, or `None` where no full match exists.
pub uninterp spec fn fuzzy_best_score(query: Seq<char>, target: Seq<char>) -> Option<isize>;

/// Relies on sublime_fuzzy's `FuzzySearch::new(query, target).best_match()`
/// and `Match::score`: the result depends on the two strings alone.
#[verifier::external_body]
fn best_match_score(query: &str, target: &str) -> (r: Option<isize>)
    ensures
        r == fuzzy_best_score(query@, target@),
{
    FuzzySearch::new(query, target).best_match().map(|m| m.score())
}

/// The score of alias key `key` for `query`: zero for the empty query, zero
/// where the query has no match in the key, and otherwise the best match's
/// score, raised to zero where it is negative. So no score is below zero,
/// and a key without a match takes that minimum.
pub open spec fn score_of(query: Seq<char>, key: Seq<char>) -> i64 {
    if query.len() == 0 {
        0
    } else {
        match fuzzy_best_score(query, key) {
            Some(s) => if s < 0 {
                0
            } else {
                s as i64
            },
            None => 0,
        }
    }
}

/// Scores one alias key against `query`.
pub fn key_score(query: &str, key: &str) -> (r: i64)
    ensures
        r == score_of(query@, key@),
{
    if query.is_empty() {
        0
    } else {
        match best_match_score(query, key) {
            Some(s) => if s < 0 {
                0
            } else {
                s as i64
            },
            None => 0,
        }
    }
}

/// Relies on rayon's `par_iter().map(..).collect_into_vec(..)`: an indexed
/// parallel map, whose item `i` is written at index `i` of the vector.
#[verifier::external_body]
fn scores_in_parallel(query: &str, aliases: &Vec<Alias>) -> (r: Vec<i64>)
    ensures
        r@.len() == aliases@.len(),
        forall|i: int| 0 <= i < r@.len() ==> r@[i] == score_of(query@, aliases@[i].key@),
{
    let mut r: Vec<i64> = Vec::new();
    aliases.par_iter().map(|a| key_score(query, a.key.as_str())).collect_into_vec(&mut r);
    r
}

/// An alias with its score for one query.
pub struct ScoredAlias {
    pub alias: Alias,
    pub score: i64,
}

impl ScoredAlias {
    /// A copy with equal alias and score.
    pub fn duplicate(&self) -> (r: ScoredAlias)
        ensures
            r == *self,
    {
        ScoredAlias { alias: self.alias.duplicate(), score: self.score }
    }
}

/// Each alias of `aliases` with its score for `query`, in input order.
pub open spec fn scored(query: Seq<char>, aliases: Seq<Alias>) -> Seq<ScoredAlias> {
    aliases.map_values(|a: Alias| ScoredAlias { alias: a, score: score_of(query, a.key@) })
}

/// `a` comes strictly before `b`: a higher score, or an equal score and a
/// key that sorts first.
pub open spec fn ranks_before(a: ScoredAlias, b: ScoredAlias) -> bool {
    a.score > b.score || (a.score == b.score && key_lt(a.alias.key@, b.alias.key@))
}

/// `x` put in front of the first entry of `s` that it ranks before.
pub open spec fn insert_ranked(s: Seq<ScoredAlias>, x: ScoredAlias) -> Seq<ScoredAlias>
    decreases s.len(),
{
    if s.len() == 0 {
        seq![x]
    } else if ranks_before(x, s[0]) {
        seq![x] + s
    } else {
        seq![s[0]] + insert_ranked(s.drop_first(), x)
    }
}

/// The entries of `s` in canonical order: each entry in turn is put in front
/// of the first one placed so far that it ranks before.
pub open spec fn ranked(s: Seq<ScoredAlias>) -> Seq<ScoredAlias>
    decreases s.len(),
{
    if s.len() == 0 {
        s
    } else {
        insert_ranked(ranked(s.drop_last()), s.last())
    }
}

/// No entry ranks before one that precedes it.
pub open spec fn rank_ordered(s: Seq<ScoredAlias>) -> bool {
    forall|i: int, j: int| 0 <= i < j < s.len() ==> !ranks_before(#[trigger] s[j], #[trigger] s[i])
}

/// The index at which `insert_ranked` puts `x`.
pub open spec fn insert_position(s: Seq<ScoredAlias>, x: ScoredAlias) -> int
    decreases s.len(),
{
    if s.len() == 0 || ranks_before(x, s[0]) {
        0
    } else {
        1 + insert_position(s.drop_first(), x)
    }
}

pub proof fn lemma_ranks_before_asymmetric(a: ScoredAlias, b: ScoredAlias)
    ensures
        !(ranks_before(a, b) && ranks_before(b, a)),
{
    lemma_key_lt_asymmetric(a.alias.key@, b.alias.key@);
}

pub proof fn lemma_ranks_before_transitive(a: ScoredAlias, b: ScoredAlias, c: ScoredAlias)
    requires
        ranks_before(a, b),
        ranks_before(b, c),
    ensures
        ranks_before(a, c),
{
    if a.score == b.score && b.score == c.score {
        lemma_key_lt_transitive(a.alias.key@, b.alias.key@, c.alias.key@);
    }
}

/// `insert_ranked` puts `x` at any index `p` before which `x` ranks before
/// nothing and at which it ranks before the entry there.
proof fn lemma_insert_ranked_at(s: Seq<ScoredAlias>, x: ScoredAlias, p: int)
    requires
        0 <= p <= s.len(),
        forall|i: int| 0 <= i < p ==> !ranks_before(x, #[trigger] s[i]),
        p == s.len() || ranks_before(x, s[p]),
    ensures
        insert_ranked(s, x) == s.insert(p, x),
    decreases s.len(),
{
    if s.len() == 0 {
        assert(s.insert(p, x) =~= seq![x]);
    } else if p == 0 {
        assert(seq![x] + s =~= s.insert(0, x));
    } else {
        let t = s.drop_first();
        assert forall|i: int| 0 <= i < p - 1 implies !ranks_before(x, #[trigger] t[i]) by {
            assert(t[i] == s[i + 1]);
        }
        lemma_insert_ranked_at(t, x, p - 1);
        assert(seq![s[0]] + t.insert(p - 1, x) =~= s.insert(p, x));
    }
}

proof fn lemma_insert_position(s: Seq<ScoredAlias>, x: ScoredAlias)
    ensures
        0 <= insert_position(s, x) <= s.len(),
        forall|i: int| 0 <= i < insert_position(s, x) ==> !ranks_before(x, #[trigger] s[i]),
        insert_position(s, x) == s.len() || ranks_before(x, s[insert_position(s, x)]),
    decreases s.len(),
{
    if s.len() > 0 && !ranks_before(x, s[0]) {
        let t = s.drop_first();
        lemma_insert_position(t, x);
        assert forall|i: int| 0 <= i < insert_position(s, x) implies !ranks_before(
            x,
            #[trigger] s[i],
        ) by {
            if i > 0 {
                assert(s[i] == t[i - 1]);
            }
        }
    }
}

/// Putting `x` at such an index keeps the order.
proof fn lemma_insert_keeps_order(s: Seq<ScoredAlias>, x: ScoredAlias, p: int)
    requires
        rank_ordered(s),
        0 <= p <= s.len(),
        forall|i: int| 0 <= i < p ==> !ranks_before(x, #[trigger] s[i]),
        p == s.len() || ranks_before(x, s[p]),
    ensures
        rank_ordered(s.insert(p, x)),
{
    let t = s.insert(p, x);
    assert forall|i: int, j: int| 0 <= i < j < t.len() implies !ranks_before(
        #[trigger] t[j],
        #[trigger] t[i],
    ) by {
        if j == p {
            assert(t[i] == s[i]);
        } else if i == p {
            assert(t[j] == s[j - 1]);
            lemma_ranks_before_asymmetric(x, s[p]);
            if ranks_before(s[j - 1], x) {
                lemma_ranks_before_transitive(s[j - 1], x, s[p]);
            }
        } else if i < p && j > p {
            assert(t[i] == s[i]);
            assert(t[j] == s[j - 1]);
        } else if j < p {
            assert(t[i] == s[i]);
            assert(t[j] == s[j]);
        } else {
            assert(t[i] == s[i - 1]);
            assert(t[j] == s[j - 1]);
        }
    }
}

/// The canonical order is an order: no entry ranks before an earlier one.
pub proof fn lemma_ranked_is_ordered(s: Seq<ScoredAlias>)
    ensures
        rank_ordered(ranked(s)),
    decreases s.len(),
{
    if s.len() > 0 {
        let r = ranked(s.drop_last());
        lemma_ranked_is_ordered(s.drop_last());
        lemma_insert_position(r, s.last());
        lemma_insert_ranked_at(r, s.last(), insert_position(r, s.last()));
        lemma_insert_keeps_order(r, s.last(), insert_position(r, s.last()));
    }
}

/// Ordering neither drops nor adds an entry.
pub proof fn lemma_ranked_is_permutation(s: Seq<ScoredAlias>)
    ensures
        ranked(s).to_multiset() == s.to_multiset(),
        ranked(s).len() == s.len(),
    decreases s.len(),
{
    if s.len() > 0 {
        let r = ranked(s.drop_last());
        lemma_ranked_is_permutation(s.drop_last());
        lemma_insert_position(r, s.last());
        lemma_insert_ranked_at(r, s.last(), insert_position(r, s.last()));
        assert(s.drop_last().push(s.last()) =~= s);
    }
}

/// The alias of each entry, in order.
pub open spec fn aliases_of(s: Seq<ScoredAlias>) -> Seq<Alias> {
    s.map_values(|e: ScoredAlias| e.alias)
}

proof fn lemma_aliases_of_ranked(s: Seq<ScoredAlias>)
    ensures
        aliases_of(ranked(s)).to_multiset() == aliases_of(s).to_multiset(),
    decreases s.len(),
{
    if s.len() > 0 {
        let r = ranked(s.drop_last());
        let x = s.last();
        lemma_aliases_of_ranked(s.drop_last());
        lemma_insert_position(r, x);
        let p = insert_position(r, x);
        lemma_insert_ranked_at(r, x, p);
        lemma_ranked_is_permutation(s.drop_last());
        assert(aliases_of(r.insert(p, x)) =~= aliases_of(r).insert(p, x.alias));
        assert(aliases_of(s) =~= aliases_of(s.drop_last()).push(x.alias));
    }
}

/// Ranking keeps every alias exactly once: the aliases of the result are
/// those of the input, counted with multiplicity.
pub proof fn lemma_rank_keeps_every_alias(query: Seq<char>, aliases: Seq<Alias>)
    ensures
        ranked(scored(query, aliases)).len() == aliases.len(),
        aliases_of(ranked(scored(query, aliases))).to_multiset() == aliases.to_multiset(),
{
    lemma_ranked_is_permutation(scored(query, aliases));
    lemma_aliases_of_ranked(scored(query, aliases));
    assert(aliases_of(scored(query, aliases)) =~= aliases);
}

/// The empty query gives every alias the same baseline score, zero.
pub proof fn lemma_empty_query_baseline(aliases: Seq<Alias>)
    ensures
        forall|i: int|
            0 <= i < ranked(scored(Seq::empty(), aliases)).len() ==> (#[trigger] ranked(
                scored(Seq::empty(), aliases),
            )[i]).score == 0,
{
    let s = scored(Seq::empty(), aliases);
    lemma_ranked_is_permutation(s);
    assert forall|i: int| 0 <= i < ranked(s).len() implies (#[trigger] ranked(s)[i]).score
        == 0 by {
        let e = ranked(s)[i];
        assert(ranked(s).contains(e));
        assert(s.to_multiset().count(e) > 0);
        assert(s.contains(e));
    }
}

/// In the canonical order a higher score comes first, and among equal
/// scores the keys ascend.
pub proof fn lemma_ties_ordered_by_key(s: Seq<ScoredAlias>)
    ensures
        forall|i: int, j: int|
            0 <= i < j < ranked(s).len() ==> (#[trigger] ranked(s)[i]).score > (
            #[trigger] ranked(s)[j]).score || (ranked(s)[i].score == ranked(s)[j].score
                && key_le(ranked(s)[i].alias.key@, ranked(s)[j].alias.key@)),
{
    lemma_ranked_is_ordered(s);
    let r = ranked(s);
    assert forall|i: int, j: int| 0 <= i < j < r.len() implies (#[trigger] r[i]).score > (
    #[trigger] r[j]).score || (r[i].score == r[j].score && key_le(
        r[i].alias.key@,
        r[j].alias.key@,
    )) by {
        assert(!ranks_before(r[j], r[i]));
        lemma_key_lt_total(r[i].alias.key@, r[j].alias.key@);
    }
}

/// No score is below zero, and a key in which the query has no match scores
/// zero, the minimum.
pub proof fn lemma_scores_are_at_least_zero(query: Seq<char>, key: Seq<char>)
    ensures
        score_of(query, key) >= 0,
        fuzzy_best_score(query, key) is None ==> score_of(query, key) == 0,
{
}

/// An alias whose key equals the query scores at least as high as an alias
/// whose key holds no match of the query.
pub proof fn lemma_exact_key_scores_at_least_non_match(query: Seq<char>, other: Seq<char>)
    requires
        fuzzy_best_score(query, other) is None,
    ensures
        score_of(query, query) >= score_of(query, other),
{
}

/// Every entry of a ranking has a score of at least zero.
pub proof fn lemma_ranked_scores_at_least_zero(query: Seq<char>, aliases: Seq<Alias>)
    ensures
        forall|i: int|
            0 <= i < ranked(scored(query, aliases)).len() ==> (#[trigger] ranked(
                scored(query, aliases),
            )[i]).score >= 0,
{
    let s = scored(query, aliases);
    lemma_ranked_is_permutation(s);
    assert forall|i: int| 0 <= i < ranked(s).len() implies (#[trigger] ranked(s)[i]).score
        >= 0 by {
        let e = ranked(s)[i];
        assert(ranked(s).contains(e));
        assert(s.to_multiset().count(e) > 0);
        assert(s.contains(e));
    }
}

/// Whether `a` ranks before `b`.
fn ranks_ahead(a: &ScoredAlias, b: &ScoredAlias) -> (r: bool)
    ensures
        r == ranks_before(*a, *b),
{
    a.score > b.score || (a.score == b.score && key_less(a.alias.key.as_str(), b.alias.key.as_str()))
}

/// Puts scored aliases in canonical order.
pub fn order_by_rank(entries: &Vec<ScoredAlias>) -> (r: Vec<ScoredAlias>)
    ensures
        r@ == ranked(entries@),
        rank_ordered(r@),
        r@.to_multiset() == entries@.to_multiset(),
{
    let ghost all = entries@;
    let mut out: Vec<ScoredAlias> = Vec::new();
    let mut k: usize = 0;
    assert(all.take(0) =~= Seq::<ScoredAlias>::empty());
    while k < entries.len()
        invariant
            all == entries@,
            k <= all.len(),
            out@ == ranked(all.take(k as int)),
            rank_ordered(out@),
        decreases all.len() - k,
    {
        let x = entries[k].duplicate();
        let mut p: usize = 0;
        while p < out.len() && !ranks_ahead(&x, &out[p])
            invariant
                p <= out@.len(),
                forall|i: int| 0 <= i < p ==> !ranks_before(x, #[trigger] out@[i]),
            decreases out@.len() - p,
        {
            p = p + 1;
        }
        proof {
            lemma_insert_ranked_at(out@, x, p as int);
            lemma_insert_keeps_order(out@, x, p as int);
            assert(all.take(k + 1).drop_last() =~= all.take(k as int));
        }
        out.insert(p, x);
        k = k + 1;
    }
    assert(all.take(k as int) =~= all);
    proof {
        lemma_ranked_is_permutation(all);
    }
    out
}

/// Scores every alias against `query` and returns them all in canonical
/// order.
pub fn rank(query: &str, aliases: &Vec<Alias>) -> (r: Vec<ScoredAlias>)
    ensures
        r@ == ranked(scored(query@, aliases@)),
        rank_ordered(r@),
        r@.to_multiset() == scored(query@, aliases@).to_multiset(),
{
    let scores = scores_in_parallel(query, aliases);
    let mut entries: Vec<ScoredAlias> = Vec::new();
    let mut i: usize = 0;
    while i < aliases.len()
        invariant
            i <= aliases@.len(),
            scores@.len() == aliases@.len(),
            forall|j: int| 0 <= j < scores@.len() ==> scores@[j] == score_of(query@, aliases@[j].key@),
            entries@ == scored(query@, aliases@).take(i as int),
        decreases aliases@.len() - i,
    {
        entries.push(ScoredAlias { alias: aliases[i].duplicate(), score: scores[i] });
        proof {
            assert(entries@ =~= scored(query@, aliases@).take(i + 1));
        }
        i = i + 1;
    }
    assert(entries@ =~= scored(query@, aliases@));
    order_by_rank(&entries)
}

} // verus!
