//! Fuzzy scoring of a candidate against a typed pattern, and ranking of a
//! candidate list by that score.
use vstd::prelude::*;

verus! {

/// What `str::to_lowercase` makes of a sequence of characters.
pub uninterp spec fn lower_of(s: Seq<char>) -> Seq<char>;

/// Relies on `str::to_lowercase`: the result depends on the characters alone,
/// and an empty string stays empty.
#[verifier::external_body]
pub(crate) fn lowercase_chars(s: &str) -> (r: Vec<char>)
    ensures
        r@ == lower_of(s@),
        s@.len() == 0 ==> r@.len() == 0,
{
    s.to_lowercase().chars().collect()
}

/// `p` occurs in `t` as an ordered, not necessarily contiguous, subsequence.
pub open spec fn is_subsequence(p: Seq<char>, t: Seq<char>) -> bool
    decreases t.len(),
{
    if p.len() == 0 {
        true
    } else if t.len() == 0 {
        false
    } else if t[0] == p[0] {
        is_subsequence(p.drop_first(), t.drop_first())
    } else {
        is_subsequence(p, t.drop_first())
    }
}

/// The reward for matching `t[i]` against the next pattern character: one
/// point when the match opens the text or continues the previous match.
pub open spec fn bonus(i: int, prev_matched: bool) -> nat {
    if i == 0 || prev_matched {
        1
    } else {
        0
    }
}

/// Score of matching `p[j..]` against `t[i..]`, each pattern character taken
/// at its leftmost occurrence; `prev_matched` tells whether `t[i - 1]` was
/// matched. `None` when the rest of the pattern does not occur in order.
pub open spec fn score_from(t: Seq<char>, p: Seq<char>, i: int, j: int, prev_matched: bool) -> Option<nat>
    decreases t.len() - i,
{
    if j >= p.len() {
        Some(0)
    } else if i >= t.len() || i < 0 {
        None
    } else if t[i] == p[j] {
        match score_from(t, p, i + 1, j + 1, true) {
            Some(s) => Some(s + bonus(i, prev_matched)),
            None => None,
        }
    } else {
        score_from(t, p, i + 1, j, false)
    }
}

/// Score of a (case-folded) text against a (case-folded) pattern: `None`
/// when the pattern is no subsequence of the text, otherwise the number of
/// pattern characters that start the text or directly follow the previous
/// matched character.
pub open spec fn spec_score(t: Seq<char>, p: Seq<char>) -> Option<nat> {
    score_from(t, p, 0, 0, false)
}

spec fn plus(o: Option<nat>, k: nat) -> Option<nat> {
    match o {
        Some(s) => Some(s + k),
        None => None,
    }
}

proof fn lemma_score_from_bound(t: Seq<char>, p: Seq<char>, i: int, j: int, prev: bool)
    requires
        0 <= j <= p.len(),
    ensures
        score_from(t, p, i, j, prev) matches Some(s) ==> s <= p.len() - j,
    decreases t.len() - i,
{
    if j < p.len() && 0 <= i < t.len() {
        if t[i] == p[j] {
            lemma_score_from_bound(t, p, i + 1, j + 1, true);
        } else {
            lemma_score_from_bound(t, p, i + 1, j, false);
        }
    }
}

proof fn lemma_score_from_subsequence(t: Seq<char>, p: Seq<char>, i: int, j: int, prev: bool)
    requires
        0 <= i <= t.len(),
        0 <= j <= p.len(),
    ensures
        score_from(t, p, i, j, prev) is Some <==> is_subsequence(p.subrange(j, p.len() as int), t.subrange(i, t.len() as int)),
    decreases t.len() - i,
{
    let ps = p.subrange(j, p.len() as int);
    let ts = t.subrange(i, t.len() as int);
    if j < p.len() && i < t.len() {
        assert(ps.drop_first() =~= p.subrange(j + 1, p.len() as int));
        assert(ts.drop_first() =~= t.subrange(i + 1, t.len() as int));
        if t[i] == p[j] {
            lemma_score_from_subsequence(t, p, i + 1, j + 1, true);
        } else {
            lemma_score_from_subsequence(t, p, i + 1, j, false);
        }
    }
}

/// The score is defined exactly when the pattern is a subsequence of the
/// text, and never exceeds the pattern's length.
pub proof fn lemma_score_defined(t: Seq<char>, p: Seq<char>)
    ensures
        spec_score(t, p) is Some <==> is_subsequence(p, t),
        spec_score(t, p) matches Some(s) ==> s <= p.len(),
        p.len() == 0 ==> spec_score(t, p) == Some(0nat),
{
    lemma_score_from_subsequence(t, p, 0, 0, false);
    lemma_score_from_bound(t, p, 0, 0, false);
    assert(p.subrange(0, p.len() as int) =~= p);
    assert(t.subrange(0, t.len() as int) =~= t);
}

/// Scores an already case-folded text against an already case-folded pattern.
pub fn score_folded(t: &Vec<char>, p: &Vec<char>) -> (r: Option<usize>)
    ensures
        r matches Some(s) ==> spec_score(t@, p@) == Some(s as nat),
        r is None ==> spec_score(t@, p@) is None,
{
    let mut i: usize = 0;
    let mut j: usize = 0;
    let mut prev = false;
    let mut acc: usize = 0;
    proof {
        lemma_score_from_bound(t@, p@, 0, 0, false);
    }
    while j < p.len() && i < t.len()
        invariant
            i <= t.len(),
            j <= p.len(),
            acc <= j,
            spec_score(t@, p@) == plus(score_from(t@, p@, i as int, j as int, prev), acc as nat),
        decreases t.len() - i,
    {
        if t[i] == p[j] {
            if i == 0 || prev {
                acc = acc + 1;
            }
            j = j + 1;
            prev = true;
        } else {
            prev = false;
        }
        i = i + 1;
    }
    if j < p.len() {
        None
    } else {
        Some(acc)
    }
}

/// Scores `text` against `pattern`, ignoring case.
pub fn score(text: &str, pattern: &str) -> (r: Option<usize>)
    ensures
        r matches Some(s) ==> spec_score(lower_of(text@), lower_of(pattern@)) == Some(s as nat),
        r is None ==> spec_score(lower_of(text@), lower_of(pattern@)) is None,
{
    let t = lowercase_chars(text);
    let p = lowercase_chars(pattern);
    score_folded(&t, &p)
}

/// One candidate that matched the pattern, with its score.
#[derive(Debug)]
pub struct ScoredMatch {
    /// Position of the candidate in the input list.
    pub original_index: usize,
    /// The candidate's text, as given.
    pub text: String,
    /// How well the candidate matched; higher is better.
    pub score: usize,
}

/// Score of candidate `i` against the pattern, both case-folded.
pub open spec fn candidate_score(cands: Seq<String>, pat: Seq<char>, i: int) -> Option<nat> {
    spec_score(lower_of(cands[i]@), lower_of(pat))
}

/// `a` comes before `b` in a ranking: a higher score, or an equal score and
/// an earlier candidate.
pub open spec fn precedes(a: ScoredMatch, b: ScoredMatch) -> bool {
    a.score > b.score || (a.score == b.score && a.original_index < b.original_index)
}

/// `m` describes candidate `m.original_index` with its text and its score.
pub open spec fn is_match_of(m: ScoredMatch, cands: Seq<String>, pat: Seq<char>) -> bool {
    &&& m.original_index < cands.len()
    &&& m.text@ == cands[m.original_index as int]@
    &&& candidate_score(cands, pat, m.original_index as int) == Some(m.score as nat)
}

/// `r` ranks every candidate with a score, and only those, by descending
/// score, equal scores keeping the candidates' order.
pub open spec fn is_ranking(r: Seq<ScoredMatch>, cands: Seq<String>, pat: Seq<char>) -> bool {
    &&& forall|k: int| 0 <= k < r.len() ==> is_match_of(#[trigger] r[k], cands, pat)
    &&& forall|i: int|
        0 <= i < cands.len() && (#[trigger] candidate_score(cands, pat, i)) is Some ==> exists|k: int|
            0 <= k < r.len() && #[trigger] r[k].original_index == i
    &&& forall|k1: int, k2: int| 0 <= k1 < k2 < r.len() ==> precedes(#[trigger] r[k1], #[trigger] r[k2])
}

proof fn lemma_unscored_ranking_prefix(r: Seq<ScoredMatch>, cands: Seq<String>, pat: Seq<char>, k: int)
    requires
        is_ranking(r, cands, pat),
        lower_of(pat).len() == 0,
        0 <= k <= r.len(),
        k <= cands.len(),
    ensures
        forall|j: int| 0 <= j < k ==> (#[trigger] r[j]).original_index == j,
    decreases k,
{
    if k > 0 {
        let c: int = k - 1;
        lemma_unscored_ranking_prefix(r, cands, pat, c);
        lemma_score_defined(lower_of(cands[c]@), lower_of(pat));
        assert(candidate_score(cands, pat, c) is Some);
        let k0 = choose|k0: int| 0 <= k0 < r.len() && #[trigger] r[k0].original_index == c;
        if k0 < c {
            assert(r[k0].original_index == k0);
        }
        if c > 0 {
            assert(precedes(r[c - 1], r[c]));
            lemma_score_defined(lower_of(cands[r[c - 1].original_index as int]@), lower_of(pat));
            lemma_score_defined(lower_of(cands[r[c].original_index as int]@), lower_of(pat));
        } else {
            assert(r[c].original_index >= 0);
        }
        if k0 > c {
            assert(precedes(r[c], r[k0]));
            lemma_score_defined(lower_of(cands[r[k0].original_index as int]@), lower_of(pat));
            lemma_score_defined(lower_of(cands[r[c].original_index as int]@), lower_of(pat));
        }
    }
}

/// With a pattern that folds to nothing, a ranking holds every candidate
/// once, in input order.
pub proof fn lemma_unscored_ranking(r: Seq<ScoredMatch>, cands: Seq<String>, pat: Seq<char>)
    requires
        is_ranking(r, cands, pat),
        lower_of(pat).len() == 0,
    ensures
        r.len() == cands.len(),
        forall|k: int| 0 <= k < r.len() ==> (#[trigger] r[k]).original_index == k,
{
    let n: int = if r.len() < cands.len() { r.len() as int } else { cands.len() as int };
    lemma_unscored_ranking_prefix(r, cands, pat, n);
    if r.len() > cands.len() {
        let c: int = cands.len() as int;
        if c > 0 {
            assert(precedes(r[c - 1], r[c]));
            lemma_score_defined(lower_of(cands[r[c - 1].original_index as int]@), lower_of(pat));
            lemma_score_defined(lower_of(cands[r[c].original_index as int]@), lower_of(pat));
        }
        assert(is_match_of(r[c], cands, pat));
    } else if r.len() < cands.len() {
        let c: int = r.len() as int;
        lemma_score_defined(lower_of(cands[c]@), lower_of(pat));
        assert(candidate_score(cands, pat, c) is Some);
        let k0 = choose|k0: int| 0 <= k0 < r.len() && #[trigger] r[k0].original_index == c;
        assert(r[k0].original_index == k0);
    }
}

proof fn lemma_ranking_distinct(r: Seq<ScoredMatch>, cands: Seq<String>, pat: Seq<char>, k1: int, k2: int)
    requires
        is_ranking(r, cands, pat),
        0 <= k1 < k2 < r.len(),
    ensures
        r[k1].original_index != r[k2].original_index,
{
    assert(precedes(r[k1], r[k2]));
    assert(is_match_of(r[k1], cands, pat));
    assert(is_match_of(r[k2], cands, pat));
}

proof fn lemma_rankings_agree_prefix(r1: Seq<ScoredMatch>, r2: Seq<ScoredMatch>, cands: Seq<String>, pat: Seq<char>, k: int)
    requires
        is_ranking(r1, cands, pat),
        is_ranking(r2, cands, pat),
        0 <= k <= r1.len(),
        k <= r2.len(),
    ensures
        forall|j: int| 0 <= j < k ==> (#[trigger] r1[j]).original_index == r2[j].original_index,
    decreases k,
{
    if k > 0 {
        let c: int = k - 1;
        lemma_rankings_agree_prefix(r1, r2, cands, pat, c);
        let a: int = r1[c].original_index as int;
        let b: int = r2[c].original_index as int;
        assert(is_match_of(r1[c], cands, pat));
        assert(is_match_of(r2[c], cands, pat));
        assert(candidate_score(cands, pat, a) is Some);
        assert(candidate_score(cands, pat, b) is Some);
        let k2 = choose|k2: int| 0 <= k2 < r2.len() && #[trigger] r2[k2].original_index == a;
        let k1 = choose|k1: int| 0 <= k1 < r1.len() && #[trigger] r1[k1].original_index == b;
        if k2 < c {
            assert(r1[k2].original_index == r2[k2].original_index);
            lemma_ranking_distinct(r1, cands, pat, k2, c);
        }
        if k1 < c {
            assert(r1[k1].original_index == r2[k1].original_index);
            lemma_ranking_distinct(r2, cands, pat, k1, c);
        }
        if a != b {
            assert(k2 != c && k1 != c);
            assert(precedes(r2[c], r2[k2]));
            assert(precedes(r1[c], r1[k1]));
            assert(is_match_of(r2[k2], cands, pat));
            assert(is_match_of(r1[k1], cands, pat));
        }
    }
}

/// A ranking is determined by the candidates and the pattern: two rankings
/// of the same candidates by the same pattern list the same candidates,
/// with the same scores, in the same order.
pub proof fn lemma_ranking_unique(r1: Seq<ScoredMatch>, r2: Seq<ScoredMatch>, cands: Seq<String>, pat: Seq<char>)
    requires
        is_ranking(r1, cands, pat),
        is_ranking(r2, cands, pat),
    ensures
        r1.len() == r2.len(),
        forall|k: int|
            0 <= k < r1.len() ==> (#[trigger] r1[k]).original_index == r2[k].original_index && r1[k].score == r2[k].score
                && r1[k].text@ == r2[k].text@,
{
    let n: int = if r1.len() < r2.len() { r1.len() as int } else { r2.len() as int };
    lemma_rankings_agree_prefix(r1, r2, cands, pat, n);
    if r1.len() > n {
        let a: int = r1[n].original_index as int;
        assert(is_match_of(r1[n], cands, pat));
        assert(candidate_score(cands, pat, a) is Some);
        let k2 = choose|k2: int| 0 <= k2 < r2.len() && #[trigger] r2[k2].original_index == a;
        assert(r1[k2].original_index == r2[k2].original_index);
        lemma_ranking_distinct(r1, cands, pat, k2, n);
    }
    if r2.len() > n {
        let b: int = r2[n].original_index as int;
        assert(is_match_of(r2[n], cands, pat));
        assert(candidate_score(cands, pat, b) is Some);
        let k1 = choose|k1: int| 0 <= k1 < r1.len() && #[trigger] r1[k1].original_index == b;
        assert(r1[k1].original_index == r2[k1].original_index);
        lemma_ranking_distinct(r2, cands, pat, k1, n);
    }
    assert forall|k: int| 0 <= k < r1.len() implies (#[trigger] r1[k]).original_index == r2[k].original_index
        && r1[k].score == r2[k].score && r1[k].text@ == r2[k].text@ by {
        assert(is_match_of(r1[k], cands, pat));
        assert(is_match_of(r2[k], cands, pat));
    }
}

/// Inserts `m`, whose candidate comes after all of `r`'s, into the sorted `r`
/// after every entry whose score is at least `m.score`.
fn insert_ranked(r: &mut Vec<ScoredMatch>, m: ScoredMatch) -> (pos: usize)
    requires
        forall|k: int| 0 <= k < old(r).len() ==> (#[trigger] old(r)[k]).original_index < m.original_index,
        forall|k1: int, k2: int| 0 <= k1 < k2 < old(r).len() ==> precedes(#[trigger] old(r)[k1], #[trigger] old(r)[k2]),
    ensures
        pos <= old(r).len(),
        final(r)@ == old(r)@.insert(pos as int, m),
        forall|k1: int, k2: int| 0 <= k1 < k2 < final(r).len() ==> precedes(#[trigger] final(r)[k1], #[trigger] final(r)[k2]),
{
    let s: usize = m.score;
    let mut pos: usize = 0;
    while pos < r.len() && r[pos].score >= s
        invariant
            pos <= r.len(),
            forall|k: int| 0 <= k < pos ==> (#[trigger] r[k]).score >= s,
        decreases r.len() - pos,
    {
        pos = pos + 1;
    }
    let ghost old_r = r@;
    proof {
        assert forall|k: int| pos <= k < old_r.len() implies (#[trigger] old_r[k]).score < s by {
            if k > pos {
                assert(precedes(old_r[pos as int], old_r[k]));
            }
        }
    }
    r.insert(pos, m);
    proof {
        assert(r@ == old_r.insert(pos as int, m));
        assert forall|k1: int, k2: int| 0 <= k1 < k2 < r.len() implies precedes(#[trigger] r[k1], #[trigger] r[k2]) by {
            if k2 < pos {
            } else if k2 == pos {
                assert(r[k1] == old_r[k1]);
            } else if k1 < pos {
                assert(r[k2] == old_r[k2 - 1]);
                if k2 - 1 >= pos {
                    assert(old_r[k1].score >= s);
                }
            } else if k1 == pos {
                assert(r[k2] == old_r[k2 - 1]);
            } else {
                assert(r[k1] == old_r[k1 - 1]);
                assert(r[k2] == old_r[k2 - 1]);
            }
        }
    }
    pos
}

/// Filters `candidates` to those that `pattern` matches, ignoring case, and
/// orders them by descending score; equal scores keep the input order.
pub fn rank(candidates: &Vec<String>, pattern: &str) -> (r: Vec<ScoredMatch>)
    ensures
        is_ranking(r@, candidates@, pattern@),
        pattern@.len() == 0 ==> r.len() == candidates.len(),
        pattern@.len() == 0 ==> forall|k: int| 0 <= k < r.len() ==> (#[trigger] r[k]).original_index == k,
{
    let p = lowercase_chars(pattern);
    let mut r: Vec<ScoredMatch> = Vec::new();
    let mut i: usize = 0;
    while i < candidates.len()
        invariant
            i <= candidates.len(),
            p@ == lower_of(pattern@),
            forall|k: int| 0 <= k < r.len() ==> is_match_of(#[trigger] r[k], candidates@, pattern@),
            forall|k: int| 0 <= k < r.len() ==> (#[trigger] r[k]).original_index < i,
            forall|c: int|
                0 <= c < i && (#[trigger] candidate_score(candidates@, pattern@, c)) is Some ==> exists|k: int|
                    0 <= k < r.len() && #[trigger] r[k].original_index == c,
            forall|k1: int, k2: int| 0 <= k1 < k2 < r.len() ==> precedes(#[trigger] r[k1], #[trigger] r[k2]),
        decreases candidates.len() - i,
    {
        let t = lowercase_chars(candidates[i].as_str());
        match score_folded(&t, &p) {
            Some(s) => {
                let m = ScoredMatch { original_index: i, text: candidates[i].clone(), score: s };
                let ghost old_r = r@;
                let pos: usize = insert_ranked(&mut r, m);
                proof {
                    let rr = r@;
                    assert forall|k: int| 0 <= k < rr.len() implies is_match_of(#[trigger] rr[k], candidates@, pattern@)
                        && rr[k].original_index < i + 1 by {
                        if k > pos {
                            assert(rr[k] == old_r[k - 1]);
                        }
                    }
                    assert forall|c: int|
                        0 <= c < i + 1 && (#[trigger] candidate_score(candidates@, pattern@, c)) is Some implies exists|k: int|
                            0 <= k < rr.len() && #[trigger] rr[k].original_index == c by {
                        if c == i {
                            assert(rr[pos as int].original_index == c);
                        } else {
                            let k0 = choose|k: int| 0 <= k < old_r.len() && #[trigger] old_r[k].original_index == c;
                            if k0 < pos {
                                assert(rr[k0].original_index == c);
                            } else {
                                assert(rr[k0 + 1].original_index == c);
                            }
                        }
                    }
                }
            },
            None => {},
        }
        i = i + 1;
    }
    proof {
        if pattern@.len() == 0 {
            lemma_unscored_ranking(r@, candidates@, pattern@);
        }
    }
    r
}

} // verus!
