//! Run history: recording a run (bump or insert, newest first, trimmed to a
//! limit) and human-readable relative times.
use vstd::prelude::*;
use crate::text::{chars_of, chars_eq, string_of};

verus! {

/// One script in the run history.
#[derive(Debug, Clone, PartialEq, Eq)]
pub struct HistoryEntry {
    /// Script name (without `.sh`).
    pub name: String,
    /// Full path at the time of the last run.
    pub path: String,
    /// Unix timestamp (seconds) of the last run.
    pub timestamp: u64,
    /// Number of times the script was run.
    pub run_count: u32,
}

/// An entry as plain values: (name, path, timestamp, run count).
pub type EntryView = (Seq<char>, Seq<char>, u64, u32);

/// The plain values of an entry.
pub open spec fn entry_view(e: HistoryEntry) -> EntryView {
    (e.name@, e.path@, e.timestamp, e.run_count)
}

/// The plain values of a list of entries.
pub open spec fn history_view(s: Seq<HistoryEntry>) -> Seq<EntryView> {
    s.map_values(|e: HistoryEntry| entry_view(e))
}

/// `i` is the first position of an entry called `name`.
pub open spec fn is_first_named(s: Seq<EntryView>, name: Seq<char>, i: int) -> bool {
    &&& 0 <= i < s.len()
    &&& s[i].0 == name
    &&& forall|j: int| 0 <= j < i ==> s[j].0 != name
}

/// Some entry is called `name`.
pub open spec fn has_named(s: Seq<EntryView>, name: Seq<char>) -> bool {
    exists|i: int| 0 <= i < s.len() && s[i].0 == name
}

/// The first entry called `name` has not reached the largest run count.
pub open spec fn can_bump(s: Seq<EntryView>, name: Seq<char>) -> bool {
    forall|i: int| is_first_named(s, name, i) ==> s[i].3 < u32::MAX
}

/// The history after one more run of `name` at `path` and time `now`, before
/// reordering: the first entry of that name gets the new time and path and
/// one more run; without such an entry, a new one with one run is appended.
pub open spec fn bump_or_insert(s: Seq<EntryView>, name: Seq<char>, path: Seq<char>, now: u64) -> Seq<
    EntryView,
> {
    if has_named(s, name) {
        let i = choose|i: int| is_first_named(s, name, i);
        s.update(i, (name, path, now, (s[i].3 + 1) as u32))
    } else {
        s.push((name, path, now, 1u32))
    }
}

/// `p` lists each position of `0..n` exactly once.
pub open spec fn is_permutation(p: Seq<int>, n: int) -> bool {
    &&& p.len() == n
    &&& forall|m: int| 0 <= m < n ==> 0 <= #[trigger] p[m] < n
    &&& forall|m: int, l: int| 0 <= m < l < n ==> p[m] != p[l]
    &&& forall|i: int| 0 <= i < n ==> #[trigger] appears(p, i)
}

/// `i` occurs in `p`.
pub open spec fn appears(p: Seq<int>, i: int) -> bool {
    exists|m: int| 0 <= m < p.len() && p[m] == i
}

/// `out` is `inp` sorted by timestamp, newest first, with entries of equal
/// timestamp in the order they came in (a stable sort); `p[m]` is the
/// position in `inp` of `out[m]`.
pub open spec fn stable_newest_first(inp: Seq<EntryView>, out: Seq<EntryView>, p: Seq<int>) -> bool {
    &&& out.len() == inp.len()
    &&& is_permutation(p, inp.len() as int)
    &&& forall|m: int| 0 <= m < out.len() ==> #[trigger] out[m] == inp[p[m]]
    &&& forall|m: int, l: int| 0 <= m < l < out.len() ==> out[m].2 >= out[l].2
    &&& forall|m: int, l: int|
        0 <= m < l < out.len() && out[m].2 == out[l].2 ==> p[m] < p[l]
}

/// At most `limit` first entries of `s`.
pub open spec fn keep_first(s: Seq<EntryView>, limit: int) -> Seq<EntryView> {
    if s.len() > limit {
        s.take(limit)
    } else {
        s
    }
}

fn copy_entry(e: &HistoryEntry) -> (r: HistoryEntry)
    ensures
        entry_view(r) == entry_view(*e),
{
    HistoryEntry { name: e.name.clone(), path: e.path.clone(), timestamp: e.timestamp, run_count: e.run_count }
}

/// Sorts `inp` by timestamp, newest first, keeping the order of equal timestamps.
pub fn sort_newest_first(inp: &Vec<HistoryEntry>) -> (r: Vec<HistoryEntry>)
    ensures
        exists|p: Seq<int>| stable_newest_first(history_view(inp@), history_view(r@), p),
{
    let ghost iv = history_view(inp@);
    let mut out: Vec<HistoryEntry> = Vec::new();
    let ghost mut p: Seq<int> = Seq::empty();
    let mut k: usize = 0;
    while k < inp.len()
        invariant
            k <= inp.len(),
            iv == history_view(inp@),
            stable_newest_first(iv.take(k as int), history_view(out@), p),
        decreases inp.len() - k,
    {
        let ts = inp[k].timestamp;
        let mut j: usize = 0;
        while j < out.len() && out[j].timestamp >= ts
            invariant
                j <= out.len(),
                forall|m: int| 0 <= m < j ==> (#[trigger] out@[m]).timestamp >= ts,
            decreases out.len() - j,
        {
            j += 1;
        }
        let ghost ov = history_view(out@);
        let ghost old_p = p;
        let ghost pre = iv.take(k as int);
        let ghost post = iv.take(k + 1);
        let e = copy_entry(&inp[k]);
        out.insert(j, e);
        proof {
            p = old_p.insert(j as int, k as int);
            let nv = history_view(out@);
            let x = iv[k as int];
            assert(nv =~= ov.insert(j as int, x));
            assert forall|m: int| 0 <= m < pre.len() implies post[m] == pre[m] by {}
            assert(post[k as int] == x);
            // every position before j holds a timestamp >= ts, every one after < ts
            assert forall|m: int| 0 <= m < ov.len() implies (m < j ==> ov[m].2 >= ts) && (m >= j
                ==> ov[m].2 < ts) by {
                if m >= j {
                    assert(ov[j as int].2 < ts);
                    if m > j {
                        assert(ov[j as int].2 >= ov[m].2);
                    }
                }
            }
            assert forall|m: int| 0 <= m < k + 1 implies 0 <= #[trigger] p[m] < k + 1 by {
                if m < j {
                    assert(p[m] == old_p[m]);
                } else if m > j {
                    assert(p[m] == old_p[m - 1]);
                }
            }
            assert forall|m: int, l: int| 0 <= m < l < k + 1 implies p[m] != p[l] by {
                if m < j {
                    assert(p[m] == old_p[m]);
                } else if m > j {
                    assert(p[m] == old_p[m - 1]);
                }
                if l < j {
                    assert(p[l] == old_p[l]);
                } else if l > j {
                    assert(p[l] == old_p[l - 1]);
                }
            }
            assert forall|i: int| 0 <= i < k + 1 implies #[trigger] appears(p, i) by {
                if i == k {
                    assert(p[j as int] == i);
                } else {
                    assert(appears(old_p, i));
                    let m0 = choose|m: int| 0 <= m < old_p.len() && old_p[m] == i;
                    if m0 < j {
                        assert(p[m0] == i);
                    } else {
                        assert(p[m0 + 1] == i);
                    }
                }
            }
            assert forall|m: int| 0 <= m < nv.len() implies #[trigger] nv[m] == post[p[m]] by {
                if m < j {
                    assert(nv[m] == ov[m] && p[m] == old_p[m]);
                } else if m > j {
                    assert(nv[m] == ov[m - 1] && p[m] == old_p[m - 1]);
                }
            }
            assert forall|m: int, l: int| 0 <= m < l < nv.len() implies nv[m].2 >= nv[l].2 by {
                if l < j {
                    assert(nv[m] == ov[m] && nv[l] == ov[l]);
                } else if l == j {
                    assert(nv[m] == ov[m]);
                } else if m < j {
                    assert(nv[m] == ov[m] && nv[l] == ov[l - 1]);
                } else if m == j {
                    assert(nv[l] == ov[l - 1]);
                } else {
                    assert(nv[m] == ov[m - 1] && nv[l] == ov[l - 1]);
                }
            }
            assert forall|m: int, l: int|
                0 <= m < l < nv.len() && nv[m].2 == nv[l].2 implies p[m] < p[l] by {
                if l < j {
                    assert(nv[m] == ov[m] && nv[l] == ov[l]);
                    assert(p[m] == old_p[m] && p[l] == old_p[l]);
                } else if l == j {
                    assert(p[m] == old_p[m] && p[l] == k);
                } else if m < j {
                    assert(nv[m] == ov[m] && nv[l] == ov[l - 1]);
                    assert(p[m] == old_p[m] && p[l] == old_p[l - 1]);
                    assert(ov[m].2 >= ov[l - 1].2);
                    assert(old_p[m] != old_p[l - 1]);
                } else if m == j {
                    assert(nv[l] == ov[l - 1]);
                } else {
                    assert(nv[m] == ov[m - 1] && nv[l] == ov[l - 1]);
                    assert(p[m] == old_p[m - 1] && p[l] == old_p[l - 1]);
                }
            }
        }
        k += 1;
    }
    assert(iv.take(inp.len() as int) =~= iv);
    out
}

/// Position of the first entry called `name`, or the length when there is none.
fn position_of_name(entries: &Vec<HistoryEntry>, name: &str) -> (r: usize)
    ensures
        r <= entries.len(),
        forall|j: int| 0 <= j < r ==> entries@[j].name@ != name@,
        r < entries.len() ==> entries@[r as int].name@ == name@,
{
    let target = chars_of(name);
    let mut i: usize = 0;
    while i < entries.len()
        invariant
            i <= entries.len(),
            target@ == name@,
            forall|j: int| 0 <= j < i ==> entries@[j].name@ != name@,
        decreases entries.len() - i,
    {
        if chars_eq(&chars_of(entries[i].name.as_str()), &target) {
            return i;
        }
        i += 1;
    }
    i
}

/// Records a run of the script `name` at `path`, at Unix time `now`: bumps
/// the run count (and updates time and path) of the first entry of that
/// name, or appends a new entry; then orders the entries newest first
/// (stable for equal times) and keeps at most `limit` of them.
pub fn record(entries: &mut Vec<HistoryEntry>, name: &str, path: &str, now: u64, limit: usize)
    requires
        can_bump(history_view(old(entries)@), name@),
    ensures
        exists|sorted: Seq<EntryView>, p: Seq<int>|
            stable_newest_first(
                bump_or_insert(history_view(old(entries)@), name@, path@, now),
                sorted,
                p,
            ) && history_view(final(entries)@) == keep_first(sorted, limit as int),
{
    let ghost before = history_view(entries@);
    let i = position_of_name(entries, name);
    if i < entries.len() {
        proof {
            assert(before[i as int].0 == name@);
            assert(is_first_named(before, name@, i as int));
            assert(has_named(before, name@));
            let c = choose|c: int| is_first_named(before, name@, c);
            assert(c == i) by {
                if c < i {
                    assert(before[c].0 != name@);
                } else if c > i {
                    assert(before[i as int].0 != name@);
                }
            }
        }
        let count = entries[i].run_count;
        let e = HistoryEntry {
            name: String::from_str(name),
            path: String::from_str(path),
            timestamp: now,
            run_count: count + 1,
        };
        entries.set(i, e);
        assert(history_view(entries@) =~= bump_or_insert(before, name@, path@, now));
    } else {
        proof {
            assert(!has_named(before, name@));
        }
        let e = HistoryEntry {
            name: String::from_str(name),
            path: String::from_str(path),
            timestamp: now,
            run_count: 1,
        };
        entries.push(e);
        assert(history_view(entries@) =~= bump_or_insert(before, name@, path@, now));
    }
    let mut sorted = sort_newest_first(entries);
    let ghost sv = history_view(sorted@);
    sorted.truncate(limit);
    assert(history_view(sorted@) =~= keep_first(sv, limit as int));
    *entries = sorted;
}

/// How many runs of `name` the history holds before one more is recorded:
/// the run count of the first entry of that name, or 0 without one.
pub open spec fn prior_runs(s: Seq<EntryView>, name: Seq<char>) -> int {
    if has_named(s, name) {
        s[choose|i: int| is_first_named(s, name, i)].3 as int
    } else {
        0
    }
}

/// After recording a run that is newer than everything in the history, with
/// room for at least one entry, that run comes first: the recorded name and
/// path at the recorded time, with one run more than the history held for
/// that name; every other entry kept is older.
pub proof fn lemma_record_newest_first(
    old_entries: Seq<EntryView>,
    name: Seq<char>,
    path: Seq<char>,
    now: u64,
    limit: int,
    sorted: Seq<EntryView>,
    p: Seq<int>,
)
    requires
        forall|i: int| 0 <= i < old_entries.len() ==> (#[trigger] old_entries[i]).2 < now,
        limit > 0,
        can_bump(old_entries, name),
        stable_newest_first(bump_or_insert(old_entries, name, path, now), sorted, p),
    ensures
        keep_first(sorted, limit).len() > 0,
        keep_first(sorted, limit)[0].0 == name,
        keep_first(sorted, limit)[0].1 == path,
        keep_first(sorted, limit)[0].2 == now,
        keep_first(sorted, limit)[0].3 == prior_runs(old_entries, name) + 1,
        forall|j: int|
            1 <= j < keep_first(sorted, limit).len() ==> (#[trigger] keep_first(sorted, limit)[j]).2
                < now,
{
    let b = bump_or_insert(old_entries, name, path, now);
    let u = if has_named(old_entries, name) {
        choose|i: int| is_first_named(old_entries, name, i)
    } else {
        old_entries.len() as int
    };
    if has_named(old_entries, name) {
        let w = choose|i: int| 0 <= i < old_entries.len() && old_entries[i].0 == name;
        lemma_first_named_exists(old_entries, name, w);
    }
    assert(0 <= u < b.len());
    assert(b[u] == (name, path, now, b[u].3));
    assert forall|i: int| 0 <= i < b.len() && i != u implies b[i].2 < now by {
        assert(b[i] == old_entries[i]);
    }
    assert(appears(p, u));
    let m = choose|m: int| 0 <= m < p.len() && p[m] == u;
    assert(sorted[m] == b[u]);
    if m > 0 {
        assert(sorted[0].2 >= sorted[m].2);
    }
    assert(sorted[0] == b[p[0]]);
    assert(p[0] == u);
    assert(keep_first(sorted, limit)[0] == sorted[0]);
    if has_named(old_entries, name) {
        assert(is_first_named(old_entries, name, u));
        assert(old_entries[u].3 < u32::MAX);
    }
    assert forall|j: int| 1 <= j < keep_first(sorted, limit).len() implies (#[trigger] keep_first(
        sorted,
        limit,
    )[j]).2 < now by {
        assert(keep_first(sorted, limit)[j] == sorted[j]);
        assert(p[j] != p[0]);
        assert(sorted[j] == b[p[j]]);
    }
}

/// Loading the history that `record` left (ordering it newest first again)
/// puts the run just recorded first: its name, path and time, with one run
/// more than the history held for that name.
pub proof fn lemma_recorded_run_first_on_load(
    old_entries: Seq<EntryView>,
    name: Seq<char>,
    path: Seq<char>,
    now: u64,
    limit: int,
    sorted: Seq<EntryView>,
    p: Seq<int>,
    loaded: Seq<EntryView>,
    q: Seq<int>,
)
    requires
        forall|i: int| 0 <= i < old_entries.len() ==> (#[trigger] old_entries[i]).2 < now,
        limit > 0,
        can_bump(old_entries, name),
        stable_newest_first(bump_or_insert(old_entries, name, path, now), sorted, p),
        stable_newest_first(keep_first(sorted, limit), loaded, q),
    ensures
        loaded.len() > 0,
        loaded[0] == (name, path, now, (prior_runs(old_entries, name) + 1) as u32),
{
    lemma_record_newest_first(old_entries, name, path, now, limit, sorted, p);
    let kept = keep_first(sorted, limit);
    assert(appears(q, 0));
    let m = choose|m: int| 0 <= m < q.len() && q[m] == 0;
    assert(loaded[m] == kept[0]);
    assert(loaded[0] == kept[q[0]]);
    if m > 0 {
        assert(loaded[0].2 >= loaded[m].2);
    }
    if q[0] != 0 {
        assert(kept[q[0]].2 < now);
    }
    assert(q[0] == 0);
}

proof fn lemma_first_named_exists(s: Seq<EntryView>, name: Seq<char>, w: int)
    requires
        0 <= w < s.len(),
        s[w].0 == name,
    ensures
        exists|i: int| is_first_named(s, name, i),
    decreases w,
{
    if exists|j: int| 0 <= j < w && s[j].0 == name {
        let j = choose|j: int| 0 <= j < w && s[j].0 == name;
        lemma_first_named_exists(s, name, j);
    } else {
        assert(is_first_named(s, name, w));
    }
}

/// The history that `record` leaves is ordered newest first and holds at
/// most `limit` entries.
pub proof fn lemma_record_ordered_and_bounded(inp: Seq<EntryView>, sorted: Seq<EntryView>, p: Seq<int>, limit: int)
    requires
        stable_newest_first(inp, sorted, p),
        limit >= 0,
    ensures
        keep_first(sorted, limit).len() <= limit,
        forall|m: int, l: int|
            0 <= m < l < keep_first(sorted, limit).len() ==> keep_first(sorted, limit)[m].2
                >= keep_first(sorted, limit)[l].2,
{
}

// ── Relative time ────────────────────────────────────────────

/// The decimal digit for `d` (0 to 9).
pub open spec fn digit_char(d: int) -> char {
    if d == 0 { '0' } else if d == 1 { '1' } else if d == 2 { '2' } else if d == 3 { '3' } else if d
        == 4 { '4' } else if d == 5 { '5' } else if d == 6 { '6' } else if d == 7 { '7' } else if d
        == 8 { '8' } else { '9' }
}

/// The decimal representation of `n`, without leading zeros.
pub open spec fn decimal(n: nat) -> Seq<char>
    decreases n,
{
    if n < 10 {
        seq![digit_char(n as int)]
    } else {
        decimal(n / 10).push(digit_char((n % 10) as int))
    }
}

fn digit_exec(d: u64) -> (r: char)
    requires
        d < 10,
    ensures
        r == digit_char(d as int),
{
    if d == 0 { '0' } else if d == 1 { '1' } else if d == 2 { '2' } else if d == 3 { '3' } else if d
        == 4 { '4' } else if d == 5 { '5' } else if d == 6 { '6' } else if d == 7 { '7' } else if d
        == 8 { '8' } else { '9' }
}

/// The decimal digits of `n`.
pub fn decimal_chars(n: u64) -> (r: Vec<char>)
    ensures
        r@ == decimal(n as nat),
    decreases n,
{
    if n < 10 {
        let r = vec![digit_exec(n)];
        assert(r@ =~= decimal(n as nat));
        r
    } else {
        let mut r = decimal_chars(n / 10);
        r.push(digit_exec(n % 10));
        r
    }
}

/// How long ago `ts` was, seen at time `now`, as the history shows it.
pub open spec fn relative_time_spec(ts: u64, now: u64) -> Seq<char> {
    let diff: nat = if now >= ts { (now - ts) as nat } else { 0 };
    if diff < 60 {
        seq!['j', 'u', 's', 't', ' ', 'n', 'o', 'w']
    } else if diff < 3600 {
        decimal(diff / 60) + seq!['m', ' ', 'a', 'g', 'o']
    } else if diff < 86400 {
        decimal(diff / 3600) + seq!['h', ' ', 'a', 'g', 'o']
    } else if diff < 86400 * 7 {
        decimal(diff / 86400) + seq!['d', ' ', 'a', 'g', 'o']
    } else if diff < 86400 * 30 {
        decimal(diff / (86400 * 7)) + seq!['w', ' ', 'a', 'g', 'o']
    } else {
        decimal(diff / (86400 * 30)) + seq!['m', 'o', ' ', 'a', 'g', 'o']
    }
}

fn append_chars(v: &mut Vec<char>, tail: &Vec<char>)
    ensures
        final(v)@ == old(v)@ + tail@,
{
    let mut i: usize = 0;
    let ghost start = v@;
    while i < tail.len()
        invariant
            i <= tail.len(),
            v@ == start + tail@.take(i as int),
        decreases tail.len() - i,
    {
        v.push(tail[i]);
        i += 1;
        assert(v@ =~= start + tail@.take(i as int));
    }
    assert(tail@.take(tail.len() as int) =~= tail@);
}

/// How long ago the Unix time `ts` was, seen at Unix time `now`: "just now",
/// then minutes, hours, days, weeks and (30-day) months, e.g. "5m ago".
pub fn relative_time_at(ts: u64, now: u64) -> (r: String)
    ensures
        r@ == relative_time_spec(ts, now),
{
    let diff = now.saturating_sub(ts);
    let mut out: Vec<char>;
    if diff < 60 {
        out = vec!['j', 'u', 's', 't', ' ', 'n', 'o', 'w'];
        assert(out@ =~= relative_time_spec(ts, now));
    } else {
        let (n, unit) = if diff < 3600 {
            (diff / 60, vec!['m', ' ', 'a', 'g', 'o'])
        } else if diff < 86400 {
            (diff / 3600, vec!['h', ' ', 'a', 'g', 'o'])
        } else if diff < 86400 * 7 {
            (diff / 86400, vec!['d', ' ', 'a', 'g', 'o'])
        } else if diff < 86400 * 30 {
            (diff / (86400 * 7), vec!['w', ' ', 'a', 'g', 'o'])
        } else {
            (diff / (86400 * 30), vec!['m', 'o', ' ', 'a', 'g', 'o'])
        };
        out = decimal_chars(n);
        append_chars(&mut out, &unit);
        assert(out@ =~= relative_time_spec(ts, now));
    }
    string_of(&out)
}

/// Reads the system clock: seconds since the Unix epoch, or 0 when the
/// clock is before the epoch. Nothing is claimed of the value.
#[verifier::external_body]
fn unix_now() -> u64 {
    match std::time::SystemTime::now().duration_since(std::time::UNIX_EPOCH) {
        Ok(d) => d.as_secs(),
        Err(_) => 0,
    }
}

/// How long ago the Unix time `ts` was, seen now (see `relative_time_at`).
pub fn relative_time(ts: u64) -> (r: String)
    ensures
        exists|now: u64| r@ == relative_time_spec(ts, now),
{
    let now = unix_now();
    relative_time_at(ts, now)
}

} // verus!
