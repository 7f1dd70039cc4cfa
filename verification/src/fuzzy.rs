//! Built-in fuzzy scorer: case-insensitive subsequence matching with
//! bonuses for word starts and consecutive runs, and ranking of scripts.
use vstd::prelude::*;
use crate::text::{lowercase, lower_chars, chars_of, string_views};
use crate::scripts::Script;

verus! {

// ── Matching ─────────────────────────────────────────────────

/// Leftmost positions in `t`, from `ti` on, at which `q[qi..]` is found in
/// order; it stops at the first character of `q` that no longer occurs.
pub open spec fn greedy(q: Seq<char>, t: Seq<char>, qi: int, ti: int) -> Seq<int>
    decreases t.len() - ti,
{
    if qi < 0 || qi >= q.len() || ti < 0 || ti >= t.len() {
        Seq::<int>::empty()
    } else if q[qi] == t[ti] {
        seq![ti] + greedy(q, t, qi + 1, ti + 1)
    } else {
        greedy(q, t, qi, ti + 1)
    }
}

/// Where the characters of `q` are matched in `t` (leftmost first).
pub open spec fn match_pos(q: Seq<char>, t: Seq<char>) -> Seq<int> {
    greedy(q, t, 0, 0)
}

/// `q` occurs in `t` as a subsequence: its characters appear in `t` in order.
pub open spec fn is_subsequence(q: Seq<char>, t: Seq<char>) -> bool {
    exists|idx: Seq<int>| is_embedding(q, t, idx)
}

/// `idx` picks, in increasing order, a position of `t` for each character of `q`.
pub open spec fn is_embedding(q: Seq<char>, t: Seq<char>, idx: Seq<int>) -> bool {
    &&& idx.len() == q.len()
    &&& forall|k: int| 0 <= k < idx.len() ==> 0 <= #[trigger] idx[k] < t.len() && t[idx[k]] == q[k]
    &&& forall|k: int, l: int| 0 <= k < l < idx.len() ==> idx[k] < idx[l]
}

pub proof fn lemma_greedy_facts(q: Seq<char>, t: Seq<char>, qi: int, ti: int)
    requires
        0 <= qi <= q.len(),
        0 <= ti,
    ensures
        greedy(q, t, qi, ti).len() <= q.len() - qi,
        forall|k: int|
            0 <= k < greedy(q, t, qi, ti).len() ==> ti <= #[trigger] greedy(q, t, qi, ti)[k]
                < t.len() && t[greedy(q, t, qi, ti)[k]] == q[qi + k],
        forall|k: int, l: int|
            0 <= k < l < greedy(q, t, qi, ti).len() ==> greedy(q, t, qi, ti)[k] < greedy(
                q,
                t,
                qi,
                ti,
            )[l],
    decreases t.len() - ti,
{
    if qi >= q.len() || ti >= t.len() {
    } else if q[qi] == t[ti] {
        lemma_greedy_facts(q, t, qi + 1, ti + 1);
        let rest = greedy(q, t, qi + 1, ti + 1);
        let g = greedy(q, t, qi, ti);
        assert(g == seq![ti] + rest);
        assert forall|k: int| 0 <= k < g.len() implies ti <= #[trigger] g[k] < t.len() && t[g[k]]
            == q[qi + k] by {
            if k > 0 {
                assert(g[k] == rest[k - 1]);
            }
        }
        assert forall|k: int, l: int| 0 <= k < l < g.len() implies g[k] < g[l] by {
            assert(g[l] == rest[l - 1]);
            if k > 0 {
                assert(g[k] == rest[k - 1]);
            }
        }
    } else {
        lemma_greedy_facts(q, t, qi, ti + 1);
    }
}

proof fn lemma_greedy_complete(q: Seq<char>, t: Seq<char>, qi: int, ti: int, idx: Seq<int>)
    requires
        0 <= qi <= q.len(),
        0 <= ti,
        idx.len() == q.len() - qi,
        forall|k: int| 0 <= k < idx.len() ==> ti <= #[trigger] idx[k] < t.len() && t[idx[k]] == q[qi + k],
        forall|k: int, l: int| 0 <= k < l < idx.len() ==> idx[k] < idx[l],
    ensures
        greedy(q, t, qi, ti).len() == q.len() - qi,
    decreases t.len() - ti,
{
    if qi >= q.len() {
    } else if ti >= t.len() {
        assert(idx[0] < t.len());
    } else if q[qi] == t[ti] {
        let rest = idx.drop_first();
        assert forall|k: int| 0 <= k < rest.len() implies ti + 1 <= #[trigger] rest[k] < t.len()
            && t[rest[k]] == q[qi + 1 + k] by {
            assert(rest[k] == idx[k + 1]);
            assert(idx[0] < idx[k + 1]);
        }
        lemma_greedy_complete(q, t, qi + 1, ti + 1, rest);
    } else {
        assert(idx[0] != ti);
        lemma_greedy_complete(q, t, qi, ti + 1, idx);
    }
}

/// All characters of `q` are matched by the leftmost matching exactly when
/// `q` is a subsequence of `t`.
pub proof fn lemma_match_iff_subsequence(q: Seq<char>, t: Seq<char>)
    ensures
        (match_pos(q, t).len() == q.len()) <==> is_subsequence(q, t),
{
    lemma_greedy_facts(q, t, 0, 0);
    let p = match_pos(q, t);
    if p.len() == q.len() {
        assert(is_embedding(q, t, p));
    }
    if is_subsequence(q, t) {
        let idx = choose|idx: Seq<int>| is_embedding(q, t, idx);
        lemma_greedy_complete(q, t, 0, 0, idx);
    }
}

/// An optional machine integer as an optional mathematical integer.
pub open spec fn opt_int(o: Option<i32>) -> Option<int> {
    match o {
        Some(v) => Some(v as int),
        None => None,
    }
}

/// A score is present exactly when the query is a subsequence of the target.
pub proof fn lemma_score_some_iff_subsequence(q: Seq<char>, t: Seq<char>)
    ensures
        score_core(q, t) is Some <==> is_subsequence(q, t),
{
    lemma_greedy_facts(q, t, 0, 0);
    lemma_match_iff_subsequence(q, t);
}

// ── Scoring ──────────────────────────────────────────────────

/// Characters that start a new word in a script name.
pub open spec fn is_separator(c: char) -> bool {
    c == '_' || c == '-' || c == '.' || c == '/'
}

/// Bonus earned by the `i`-th matched position in `p`: 16 at the very
/// start, 10 right after a separator, 8 for following the previous match
/// directly, and 1 for the match itself.
pub open spec fn bonus(t: Seq<char>, p: Seq<int>, i: int) -> int {
    let pos = p[i];
    (if pos == 0 { 16int } else { 0int }) + (if pos > 0 && is_separator(t[pos - 1]) {
        10int
    } else {
        0int
    }) + (if i > 0 && pos == p[i - 1] + 1 { 8int } else { 0int }) + 1
}

/// Sum of the bonuses of the first `n` matched positions.
pub open spec fn bonus_sum(t: Seq<char>, p: Seq<int>, n: int) -> int
    decreases n,
{
    if n <= 0 {
        0
    } else {
        bonus_sum(t, p, n - 1) + bonus(t, p, n - 1)
    }
}

/// `a / b` rounded toward zero, as Rust's integer division does.
pub open spec fn div_trunc(a: int, b: int) -> int {
    if a >= 0 {
        a / b
    } else {
        -((-a) / b)
    }
}

/// Score of the (already lowercased) query `q` against the (already
/// lowercased) target `t` as a mathematical integer: `None` unless `q` is
/// fully matched; otherwise the bonuses minus a quarter of the unmatched
/// length.
pub open spec fn exact_score(q: Seq<char>, t: Seq<char>) -> Option<int> {
    let p = match_pos(q, t);
    if p.len() < q.len() {
        None
    } else {
        Some(bonus_sum(t, p, q.len() as int) - (t.len() - q.len()) / 4)
    }
}

/// The first `n` bonuses added up in `i32`, wrapping on overflow.
pub open spec fn wrapped_bonus_sum(t: Seq<char>, p: Seq<int>, n: int) -> i32
    decreases n,
{
    if n <= 0 {
        0i32
    } else {
        vstd::wrapping::i32_specs::wrapping_add(wrapped_bonus_sum(t, p, n - 1), bonus(t, p, n - 1) as i32)
    }
}

/// The score of the (already lowercased) query `q` against the (already
/// lowercased) target `t` as the scorer computes it in `i32`: `None` unless
/// `q` is fully matched; otherwise the bonuses minus a quarter of the
/// unmatched length, each step in wrapping `i32` arithmetic (lengths taken
/// as `i32`). It equals `exact_score` whenever that fits in an `i32` and the
/// target has at most `i32::MAX` characters (`lemma_score_exact`).
pub open spec fn score_core(q: Seq<char>, t: Seq<char>) -> Option<int> {
    let p = match_pos(q, t);
    if p.len() < q.len() {
        None
    } else {
        let diff = vstd::wrapping::i32_specs::wrapping_sub(t.len() as i32, q.len() as i32);
        let penalty = div_trunc(diff as int, 4) as i32;
        Some(vstd::wrapping::i32_specs::wrapping_sub(wrapped_bonus_sum(t, p, q.len() as int), penalty) as int)
    }
}

/// What `score(query, target)` returns.
pub open spec fn score_spec(query: Seq<char>, target: Seq<char>) -> Option<int> {
    if query.len() == 0 {
        Some(0)
    } else {
        score_core(lowercase(query), lowercase(target))
    }
}

proof fn lemma_bonus_bounds(t: Seq<char>, p: Seq<int>, n: int)
    requires
        0 <= n <= p.len(),
        forall|k: int| 0 <= k < p.len() ==> 0 <= #[trigger] p[k] < t.len(),
    ensures
        0 <= bonus_sum(t, p, n) <= 25 * n,
    decreases n,
{
    if n > 0 {
        lemma_bonus_bounds(t, p, n - 1);
    }
}

/// Leftmost match positions of the lowercase query `q` in the lowercase
/// target `t`, as `usize` indices into `t`.
fn greedy_positions(q: &Vec<char>, t: &Vec<char>) -> (r: Vec<usize>)
    ensures
        r@.map_values(|x: usize| x as int) == match_pos(q@, t@),
{
    let mut positions: Vec<usize> = Vec::new();
    let mut qi: usize = 0;
    let mut ti: usize = 0;
    while ti < t.len()
        invariant
            qi <= q.len(),
            ti <= t.len(),
            positions@.map_values(|x: usize| x as int) + greedy(q@, t@, qi as int, ti as int)
                == match_pos(q@, t@),
        decreases t.len() - ti,
    {
        let ghost before = positions@.map_values(|x: usize| x as int);
        if qi < q.len() && q[qi] == t[ti] {
            positions.push(ti);
            assert(positions@.map_values(|x: usize| x as int) =~= before.push(ti as int));
            assert(greedy(q@, t@, qi as int, ti as int) == seq![ti as int] + greedy(
                q@,
                t@,
                qi + 1,
                ti + 1,
            ));
            assert(before + greedy(q@, t@, qi as int, ti as int) =~= before.push(ti as int)
                + greedy(q@, t@, qi + 1, ti + 1));
            qi += 1;
        }
        ti += 1;
    }
    assert(greedy(q@, t@, qi as int, ti as int) =~= Seq::<int>::empty());
    assert(positions@.map_values(|x: usize| x as int) =~= match_pos(q@, t@));
    positions
}

/// Bonus of one matched position, computed as the scorer does.
fn position_bonus(t: &Vec<char>, positions: &Vec<usize>, i: usize, Ghost(p): Ghost<Seq<int>>) -> (b: i32)
    requires
        i < positions.len() == p.len(),
        forall|k: int| 0 <= k < positions.len() ==> positions@[k] as int == #[trigger] p[k],
        forall|k: int| 0 <= k < p.len() ==> 0 <= #[trigger] p[k] < t.len(),
    ensures
        b as int == bonus(t@, p, i as int),
        1 <= b <= 25,
{
    let pos = positions[i];
    assert(pos as int == p[i as int]);
    let mut b: i32 = 1;
    if pos == 0 {
        b += 16;
    }
    if pos > 0 {
        let prev = t[pos - 1];
        if prev == '_' || prev == '-' || prev == '.' || prev == '/' {
            b += 10;
        }
    }
    proof {
        if i > 0 {
            assert(positions@[i - 1] as int == p[i - 1]);
        }
    }
    if i > 0 && pos == positions[i - 1] + 1 {
        b += 8;
    }
    b
}

/// Score of the lowercase query `q` against the lowercase target `t`
/// (see `score_core`).
pub fn score_chars(q: &Vec<char>, t: &Vec<char>) -> (r: Option<i32>)
    ensures
        opt_int(r) == score_core(q@, t@),
{
    let positions = greedy_positions(q, t);
    let ghost p = match_pos(q@, t@);
    proof {
        lemma_greedy_facts(q@, t@, 0, 0);
        assert(positions@.len() == p.len());
        assert forall|k: int| 0 <= k < positions.len() implies positions@[k] as int == #[trigger] p[k] by {
            assert(positions@.map_values(|x: usize| x as int)[k] == p[k]);
        }
    }
    if positions.len() < q.len() {
        return None;
    }
    let mut score: i32 = 0;
    let mut i: usize = 0;
    while i < positions.len()
        invariant
            positions.len() == q.len() == p.len(),
            i <= positions.len(),
            forall|k: int| 0 <= k < positions.len() ==> positions@[k] as int == #[trigger] p[k],
            forall|k: int| 0 <= k < p.len() ==> 0 <= #[trigger] p[k] < t.len(),
            score == wrapped_bonus_sum(t@, p, i as int),
        decreases positions.len() - i,
    {
        let b = position_bonus(t, &positions, i, Ghost(p));
        score = score.wrapping_add(b);
        i += 1;
    }
    let tl: i32 = #[verifier::truncate] (t.len() as i32);
    let ql: i32 = #[verifier::truncate] (q.len() as i32);
    let penalty: i32 = tl.wrapping_sub(ql) / 4;
    Some(score.wrapping_sub(penalty))
}

proof fn lemma_increasing_lower_bound(p: Seq<int>, k: int)
    requires
        0 <= k < p.len(),
        forall|a: int| 0 <= a < p.len() ==> 0 <= #[trigger] p[a],
        forall|a: int, b: int| 0 <= a < b < p.len() ==> p[a] < p[b],
    ensures
        k <= p[k],
    decreases k,
{
    if k > 0 {
        lemma_increasing_lower_bound(p, k - 1);
    }
}

/// Fuzzy score of `query` against `target`, case-insensitively: `Some(0)`
/// for an empty query, `None` when the query's characters do not all occur
/// in order in the target, and otherwise a score where higher is better.
pub fn score(query: &str, target: &str) -> (r: Option<i32>)
    ensures
        opt_int(r) == score_spec(query@, target@),
{
    let raw = chars_of(query);
    if raw.len() == 0 {
        return Some(0);
    }
    let q = lower_chars(query);
    let t = lower_chars(target);
    score_chars(&q, &t)
}

/// Positions in the lowercase target `t` at which the characters of the
/// lowercase query `q` are matched, leftmost first; as many as could be
/// matched.
pub fn match_positions_chars(q: &Vec<char>, t: &Vec<char>) -> (r: Vec<usize>)
    ensures
        r@.map_values(|x: usize| x as int) == match_pos(q@, t@),
{
    greedy_positions(q, t)
}

/// What `match_positions(query, target)` returns.
pub open spec fn match_positions_spec(query: Seq<char>, target: Seq<char>) -> Seq<int> {
    if query.len() == 0 {
        Seq::<int>::empty()
    } else {
        match_pos(lowercase(query), lowercase(target))
    }
}

/// Positions (in characters of the lowercased target) of the matched query
/// characters, for highlighting; empty for an empty query.
pub fn match_positions(query: &str, target: &str) -> (r: Vec<usize>)
    ensures
        r@.map_values(|x: usize| x as int) == match_positions_spec(query@, target@),
{
    let raw = chars_of(query);
    if raw.len() == 0 {
        let r: Vec<usize> = Vec::new();
        assert(r@.map_values(|x: usize| x as int) =~= Seq::<int>::empty());
        return r;
    }
    let q = lower_chars(query);
    let t = lower_chars(target);
    match_positions_chars(&q, &t)
}

} // verus!

verus! {

/// `score` finds a match exactly when the query is empty or, ignoring case,
/// its characters occur in the target in order.
pub proof fn lemma_score_is_some_iff_subsequence(query: Seq<char>, target: Seq<char>)
    ensures
        score_spec(query, target) is Some <==> (query.len() == 0 || is_subsequence(
            lowercase(query),
            lowercase(target),
        )),
{
    lemma_score_some_iff_subsequence(lowercase(query), lowercase(target));
}

/// The highlighted positions are increasing positions of the lowercase
/// target holding the query's lowercase characters in order; they cover the
/// whole query exactly when `score` finds a match.
pub proof fn lemma_match_positions_agree_with_score(query: Seq<char>, target: Seq<char>)
    requires
        query.len() > 0,
    ensures
        forall|k: int, l: int|
            0 <= k < l < match_positions_spec(query, target).len() ==> match_positions_spec(
                query,
                target,
            )[k] < match_positions_spec(query, target)[l],
        forall|k: int|
            0 <= k < match_positions_spec(query, target).len() ==> 0 <= #[trigger] match_positions_spec(
                query,
                target,
            )[k] < lowercase(target).len() && lowercase(target)[match_positions_spec(
                query,
                target,
            )[k]] == lowercase(query)[k],
        (match_positions_spec(query, target).len() == lowercase(query).len()) <==> score_spec(
            query,
            target,
        ) is Some,
{
    lemma_greedy_facts(lowercase(query), lowercase(target), 0, 0);
}

proof fn lemma_wrapped_sum_exact(t: Seq<char>, p: Seq<int>, n: int)
    requires
        0 <= n <= p.len(),
        forall|k: int| 0 <= k < p.len() ==> 0 <= #[trigger] p[k] < t.len(),
        bonus_sum(t, p, n) <= i32::MAX,
    ensures
        wrapped_bonus_sum(t, p, n) as int == bonus_sum(t, p, n),
    decreases n,
{
    if n > 0 {
        lemma_bonus_bounds(t, p, n - 1);
        assert(1 <= bonus(t, p, n - 1) <= 25);
        lemma_wrapped_sum_exact(t, p, n - 1);
    }
}

/// The score the scorer computes in `i32` is the exact score whenever the
/// target has at most `i32::MAX` characters and the bonuses add up to at
/// most `i32::MAX`.
pub proof fn lemma_score_exact(q: Seq<char>, t: Seq<char>)
    requires
        t.len() <= i32::MAX,
        match_pos(q, t).len() == q.len() ==> bonus_sum(t, match_pos(q, t), q.len() as int) <= i32::MAX,
    ensures
        score_core(q, t) == exact_score(q, t),
{
    let p = match_pos(q, t);
    lemma_greedy_facts(q, t, 0, 0);
    if p.len() == q.len() {
        assert forall|k: int| 0 <= k < p.len() implies k <= #[trigger] p[k] by {
            lemma_increasing_lower_bound(p, k);
        }
        if q.len() > 0 {
            assert(q.len() - 1 <= p[q.len() - 1]);
        }
        lemma_wrapped_sum_exact(t, p, q.len() as int);
        lemma_bonus_bounds(t, p, q.len() as int);
    }
}

/// For targets of at most `i32::MAX / 25` characters the score is always exact.
pub proof fn lemma_score_exact_for_short_targets(q: Seq<char>, t: Seq<char>)
    requires
        t.len() <= i32::MAX / 25,
    ensures
        score_core(q, t) == exact_score(q, t),
{
    let p = match_pos(q, t);
    lemma_greedy_facts(q, t, 0, 0);
    if p.len() == q.len() {
        assert forall|k: int| 0 <= k < p.len() implies k <= #[trigger] p[k] by {
            lemma_increasing_lower_bound(p, k);
        }
        if q.len() > 0 {
            assert(q.len() - 1 <= p[q.len() - 1]);
        }
        lemma_bonus_bounds(t, p, q.len() as int);
    }
    lemma_score_exact(q, t);
}

// ── Ranking ──────────────────────────────────────────────────

/// The larger of two optional scores; an absent score loses to any present one.
pub open spec fn max_opt(a: Option<int>, b: Option<int>) -> Option<int> {
    match (a, b) {
        (Some(x), Some(y)) => Some(if x >= y { x } else { y }),
        (Some(x), None) => Some(x),
        (None, y) => y,
    }
}

/// An optional score divided (toward zero) by `d`.
pub open spec fn opt_div(a: Option<int>, d: int) -> Option<int> {
    match a {
        Some(x) => Some(div_trunc(x, d)),
        None => None,
    }
}

/// Best score, divided by 3, of the query against any of the tags.
pub open spec fn tag_best(query: Seq<char>, tags: Seq<Seq<char>>) -> Option<int>
    decreases tags.len(),
{
    if tags.len() == 0 {
        None
    } else {
        max_opt(tag_best(query, tags.drop_last()), opt_div(score_spec(query, tags.last()), 3))
    }
}

/// Score of a script against the query: the best of its name's score, half
/// its description's score and a third of its best tag score.
pub open spec fn item_score(query: Seq<char>, s: Script) -> Option<int> {
    max_opt(
        max_opt(score_spec(query, s.name@), opt_div(score_spec(query, s.description@), 2)),
        tag_best(query, string_views(s.tags@)),
    )
}

/// `a` comes before `b` in a ranking: higher score first, then lower index.
pub open spec fn ranks_before(a: (usize, i32), b: (usize, i32)) -> bool {
    a.1 > b.1 || (a.1 == b.1 && a.0 < b.0)
}

/// Every entry of `s` ranks before every later one.
pub open spec fn sorted_by_rank(s: Seq<(usize, i32)>) -> bool {
    forall|k: int, l: int| 0 <= k < l < s.len() ==> ranks_before(s[k], s[l])
}

fn max_opt_exec(a: Option<i32>, b: Option<i32>) -> (r: Option<i32>)
    ensures
        opt_int(r) == max_opt(opt_int(a), opt_int(b)),
{
    match (a, b) {
        (Some(x), Some(y)) => Some(if x >= y { x } else { y }),
        (Some(x), None) => Some(x),
        (None, y) => y,
    }
}

fn div_opt_exec(a: Option<i32>, d: i32) -> (r: Option<i32>)
    requires
        d > 0,
    ensures
        opt_int(r) == opt_div(opt_int(a), d as int),
{
    match a {
        Some(x) => Some(x / d),
        None => None,
    }
}

/// Score of one script against the query (see `item_score`).
pub fn item_best_score(query: &str, s: &Script) -> (r: Option<i32>)
    ensures
        opt_int(r) == item_score(query@, *s),
{
    let name_score = score(query, s.name.as_str());
    let desc_score = div_opt_exec(score(query, s.description.as_str()), 2);
    let mut tag_score: Option<i32> = None;
    let mut i: usize = 0;
    while i < s.tags.len()
        invariant
            i <= s.tags.len(),
            opt_int(tag_score) == tag_best(query@, string_views(s.tags@.take(i as int))),
        decreases s.tags.len() - i,
    {
        let sc = div_opt_exec(score(query, s.tags[i].as_str()), 3);
        proof {
            let tv = string_views(s.tags@.take(i + 1));
            assert(tv.drop_last() =~= string_views(s.tags@.take(i as int)));
            assert(tv.last() == s.tags@[i as int]@);
        }
        tag_score = max_opt_exec(tag_score, sc);
        i += 1;
    }
    assert(s.tags@.take(s.tags.len() as int) =~= s.tags@);
    max_opt_exec(max_opt_exec(name_score, desc_score), tag_score)
}

/// Inserts `x` into the ranking `v` at its place.
fn insert_ranked(v: &mut Vec<(usize, i32)>, x: (usize, i32))
    requires
        sorted_by_rank(old(v)@),
        forall|k: int| 0 <= k < old(v)@.len() ==> (#[trigger] old(v)@[k]).0 != x.0,
    ensures
        sorted_by_rank(final(v)@),
        final(v)@.len() == old(v)@.len() + 1,
        forall|y: (usize, i32)| final(v)@.contains(y) <==> (old(v)@.contains(y) || y == x),
{
    let mut j: usize = 0;
    while j < v.len() && (v[j].1 > x.1 || (v[j].1 == x.1 && v[j].0 < x.0))
        invariant
            j <= v.len(),
            forall|k: int| 0 <= k < j ==> ranks_before(#[trigger] v@[k], x),
        decreases v.len() - j,
    {
        j += 1;
    }
    let ghost old_v = v@;
    v.insert(j, x);
    proof {
        let n = v@;
        assert(n == old_v.insert(j as int, x));
        if j < old_v.len() {
            assert(!ranks_before(old_v[j as int], x));
            assert(old_v[j as int].0 != x.0);
            assert(ranks_before(x, old_v[j as int]));
        }
        assert forall|k: int, l: int| 0 <= k < l < n.len() implies ranks_before(n[k], n[l]) by {
            if l < j {
                assert(n[k] == old_v[k] && n[l] == old_v[l]);
            } else if l == j {
                assert(n[k] == old_v[k] && n[l] == x);
            } else if k < j {
                assert(n[k] == old_v[k] && n[l] == old_v[l - 1]);
            } else if k == j {
                assert(n[k] == x && n[l] == old_v[l - 1]);
                if l - 1 > j {
                    assert(ranks_before(old_v[j as int], old_v[l - 1]));
                }
            } else {
                assert(n[k] == old_v[k - 1] && n[l] == old_v[l - 1]);
            }
        }
        assert forall|y: (usize, i32)| n.contains(y) implies (old_v.contains(y) || y == x) by {
            let k = choose|k: int| 0 <= k < n.len() && n[k] == y;
            if k < j {
                assert(old_v[k] == y);
            } else if k > j {
                assert(old_v[k - 1] == y);
            }
        }
        assert forall|y: (usize, i32)| (old_v.contains(y) || y == x) implies n.contains(y) by {
            if y == x {
                assert(n[j as int] == x);
            } else {
                let k = choose|k: int| 0 <= k < old_v.len() && old_v[k] == y;
                if k < j {
                    assert(n[k] == y);
                } else {
                    assert(n[k + 1] == y);
                }
            }
        }
    }
}

/// With an empty query every script scores 0.
pub proof fn lemma_empty_query_scores_zero(query: Seq<char>, s: Script)
    requires
        query.len() == 0,
    ensures
        item_score(query, s) == Some(0int),
{
    lemma_tag_best_empty_query(query, string_views(s.tags@));
}

proof fn lemma_tag_best_empty_query(query: Seq<char>, tags: Seq<Seq<char>>)
    requires
        query.len() == 0,
    ensures
        tag_best(query, tags) is None || tag_best(query, tags) == Some(0int),
    decreases tags.len(),
{
    if tags.len() > 0 {
        lemma_tag_best_empty_query(query, tags.drop_last());
    }
}

proof fn lemma_tag_best_is_max(query: Seq<char>, tags: Seq<Seq<char>>)
    ensures
        forall|k: int|
            0 <= k < tags.len() && (#[trigger] score_spec(query, tags[k])) is Some ==> tag_best(query, tags) is Some
                && tag_best(query, tags).unwrap() >= div_trunc(score_spec(query, tags[k]).unwrap(), 3),
        tag_best(query, tags) is Some ==> exists|k: int|
            0 <= k < tags.len() && (#[trigger] score_spec(query, tags[k])) is Some && tag_best(query, tags).unwrap()
                == div_trunc(score_spec(query, tags[k]).unwrap(), 3),
    decreases tags.len(),
{
    if tags.len() > 0 {
        let d = tags.drop_last();
        lemma_tag_best_is_max(query, d);
        assert forall|k: int|
            0 <= k < tags.len() && (#[trigger] score_spec(query, tags[k])) is Some implies tag_best(query, tags) is Some
                && tag_best(query, tags).unwrap() >= div_trunc(score_spec(query, tags[k]).unwrap(), 3) by {
            if k < d.len() {
                assert(tags[k] == d[k]);
                assert(score_spec(query, d[k]) is Some);
            }
        }
        if tag_best(query, tags) is Some {
            if tag_best(query, d) is Some && tag_best(query, tags) == tag_best(query, d) {
                let k = choose|k: int|
                    0 <= k < d.len() && (#[trigger] score_spec(query, d[k])) is Some && tag_best(query, d).unwrap()
                        == div_trunc(score_spec(query, d[k]).unwrap(), 3);
                assert(tags[k] == d[k]);
            } else {
                assert(score_spec(query, tags[tags.len() - 1]) is Some);
            }
        }
    }
}

/// A script's score is the best of its candidates: its name's score, half
/// its description's score and a third of each of its tags' scores (every
/// tag counts, not only the first). Each candidate that matches bounds the
/// score from below, the score is one of them, and a script scores only
/// when some candidate matches.
pub proof fn lemma_item_score_is_best(query: Seq<char>, s: Script)
    ensures
        score_spec(query, s.name@) is Some ==> item_score(query, s) is Some && item_score(query, s).unwrap()
            >= score_spec(query, s.name@).unwrap(),
        score_spec(query, s.description@) is Some ==> item_score(query, s) is Some && item_score(
            query,
            s,
        ).unwrap() >= div_trunc(score_spec(query, s.description@).unwrap(), 2),
        forall|k: int|
            0 <= k < s.tags@.len() && (#[trigger] score_spec(query, s.tags@[k]@)) is Some ==> item_score(query, s) is Some
                && item_score(query, s).unwrap() >= div_trunc(score_spec(query, s.tags@[k]@).unwrap(), 3),
        item_score(query, s) is Some ==> (score_spec(query, s.name@) == item_score(query, s) || (score_spec(
            query,
            s.description@,
        ) is Some && div_trunc(score_spec(query, s.description@).unwrap(), 2) == item_score(query, s).unwrap())
            || exists|k: int|
            0 <= k < s.tags@.len() && (#[trigger] score_spec(query, s.tags@[k]@)) is Some && div_trunc(
                score_spec(query, s.tags@[k]@).unwrap(),
                3,
            ) == item_score(query, s).unwrap()),
{
    let ts = string_views(s.tags@);
    lemma_tag_best_is_max(query, ts);
    assert forall|k: int|
        0 <= k < s.tags@.len() && (#[trigger] score_spec(query, s.tags@[k]@)) is Some implies item_score(query, s) is Some
            && item_score(query, s).unwrap() >= div_trunc(score_spec(query, s.tags@[k]@).unwrap(), 3) by {
        assert(ts[k] == s.tags@[k]@);
        assert(score_spec(query, ts[k]) is Some);
    }
    if item_score(query, s) is Some && tag_best(query, ts) is Some && item_score(query, s) == tag_best(query, ts) {
        let k = choose|k: int|
            0 <= k < ts.len() && (#[trigger] score_spec(query, ts[k])) is Some && tag_best(query, ts).unwrap()
                == div_trunc(score_spec(query, ts[k]).unwrap(), 3);
        assert(ts[k] == s.tags@[k]@);
    }
}

/// Filters and ranks scripts by fuzzy score against `query`: the pairs
/// (index into `items`, score) of the scripts that match, best first, ties
/// broken by index.
pub fn rank(query: &str, items: &[&Script]) -> (r: Vec<(usize, i32)>)
    ensures
        forall|k: int|
            0 <= k < r@.len() ==> (#[trigger] r@[k]).0 < items@.len() && item_score(
                query@,
                *items@[r@[k].0 as int],
            ) == Some(r@[k].1 as int),
        forall|i: int|
            0 <= i < items@.len() && (#[trigger] item_score(query@, *items@[i])) is Some ==> exists|
                k: int,
            | 0 <= k < r@.len() && r@[k].0 == i,
        sorted_by_rank(r@),
{
    let raw = chars_of(query);
    if raw.len() == 0 {
        let mut r: Vec<(usize, i32)> = Vec::new();
        let mut i: usize = 0;
        while i < items.len()
            invariant
                i <= items@.len(),
                r@.len() == i,
                forall|k: int| 0 <= k < i ==> (#[trigger] r@[k]) == (k as usize, 0i32),
            decreases items@.len() - i,
        {
            r.push((i, 0));
            i += 1;
        }
        proof {
            assert forall|k: int| 0 <= k < r@.len() implies (#[trigger] r@[k]).0 < items@.len()
                && item_score(query@, *items@[r@[k].0 as int]) == Some(r@[k].1 as int) by {
                let s = *items@[k];
                lemma_tag_best_empty_query(query@, string_views(s.tags@));
            }
            assert forall|i: int|
                0 <= i < items@.len() && (#[trigger] item_score(query@, *items@[i])) is Some implies exists|
                    k: int,
                | 0 <= k < r@.len() && r@[k].0 == i by {
                assert(r@[i].0 == i);
            }
        }
        return r;
    }
    let mut r: Vec<(usize, i32)> = Vec::new();
    let mut i: usize = 0;
    while i < items.len()
        invariant
            i <= items@.len(),
            forall|k: int|
                0 <= k < r@.len() ==> (#[trigger] r@[k]).0 < i && item_score(
                    query@,
                    *items@[r@[k].0 as int],
                ) == Some(r@[k].1 as int),
            forall|j: int|
                0 <= j < i && (#[trigger] item_score(query@, *items@[j])) is Some ==> exists|k: int|
                    0 <= k < r@.len() && r@[k].0 == j,
            sorted_by_rank(r@),
        decreases items@.len() - i,
    {
        let best = item_best_score(query, items[i]);
        match best {
            Some(sc) => {
                let ghost old_r = r@;
                insert_ranked(&mut r, (i, sc));
                proof {
                    assert forall|k: int| 0 <= k < r@.len() implies (#[trigger] r@[k]).0 < i + 1
                        && item_score(query@, *items@[r@[k].0 as int]) == Some(r@[k].1 as int) by {
                        assert(r@.contains(r@[k]));
                        if r@[k] != (i, sc) {
                            let m = choose|m: int| 0 <= m < old_r.len() && old_r[m] == r@[k];
                        }
                    }
                    assert forall|j: int|
                        0 <= j < i + 1 && (#[trigger] item_score(query@, *items@[j])) is Some implies exists|
                            k: int,
                        | 0 <= k < r@.len() && r@[k].0 == j by {
                        if j == i {
                            assert(r@.contains((i, sc)));
                        } else {
                            let m = choose|m: int| 0 <= m < old_r.len() && old_r[m].0 == j;
                            assert(old_r.contains(old_r[m]));
                            assert(r@.contains(old_r[m]));
                        }
                    }
                }
            },
            None => {},
        }
        i += 1;
    }
    r
}

} // verus!
