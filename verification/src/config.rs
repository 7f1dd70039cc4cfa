//! Configuration: search directories in priority order (command line, then
//! the config file with `~` expanded, then the system defaults, each path
//! once), history limit and screen clearing.
use vstd::prelude::*;
use crate::text::{chars_of, string_of, string_views};

verus! {

/// Resolved at startup from the config file and the command line.
#[derive(Debug, Clone)]
pub struct Config {
    /// Script search dirs, highest-priority first.
    pub search_dirs: Vec<String>,
    pub history_limit: usize,
    pub clear_on_run: bool,
    pub dry_run: bool,
}

/// What the config file holds; every setting is optional.
#[derive(Debug, Clone)]
pub struct RawConfig {
    pub search_dirs: Option<Vec<String>>,
    pub history_limit: Option<usize>,
    pub clear_on_run: Option<bool>,
}

impl RawConfig {
    /// A config file that sets nothing.
    pub fn empty() -> (r: RawConfig)
        ensures
            r.search_dirs is None,
            r.history_limit is None,
            r.clear_on_run is None,
    {
        RawConfig { search_dirs: None, history_limit: None, clear_on_run: None }
    }
}

/// Whether `std::path::Path` considers the paths `a` and `b` equal
/// (component by component).
pub uninterp spec fn path_eq(a: Seq<char>, b: Seq<char>) -> bool;

/// Compares two paths with `PartialEq` of `std::path::Path`. Claims that
/// the result is `path_eq` of the two strings, and what `Eq` (which `Path`
/// implements) guarantees: the comparison is symmetric, and a path is equal
/// to itself, so two identical strings compare equal. Which distinct strings
/// name equal paths (`a/b` and `a//b` do) is left to `path_eq`.
#[verifier::external_body]
fn same_path(a: &str, b: &str) -> (r: bool)
    ensures
        r == path_eq(a@, b@),
        r == path_eq(b@, a@),
        a@ == b@ ==> r,
{
    std::path::Path::new(a) == std::path::Path::new(b)
}

/// The system-wide script directories, searched last.
pub open spec fn default_dirs_spec() -> Seq<Seq<char>> {
    seq!["/etc/zrun-scripts"@, "/usr/lib/zrun-scripts"@]
}

/// The system-wide script directories, searched last.
pub fn default_search_dirs() -> (r: Vec<String>)
    ensures
        r@.map_values(|s: String| s@) == default_dirs_spec(),
{
    let r = vec![String::from_str("/etc/zrun-scripts"), String::from_str("/usr/lib/zrun-scripts")];
    assert(r@.map_values(|s: String| s@) =~= default_dirs_spec());
    r
}

/// `s` with a leading `~` replaced by `home` when `s` is `~` or starts with `~/`.
pub open spec fn expand_tilde(s: Seq<char>, home: Seq<char>) -> Seq<char> {
    if s == seq!['~'] || seq!['~', '/'].is_prefix_of(s) {
        home + s.skip(1)
    } else {
        s
    }
}

/// Minimal tilde expansion: `~` and `~/...` are taken relative to `home`.
pub fn shellexpand_tilde(s: &str, home: &str) -> (r: String)
    ensures
        r@ == expand_tilde(s@, home@),
{
    let c = chars_of(s);
    if c.len() >= 1 && c[0] == '~' && (c.len() == 1 || c[1] == '/') {
        proof {
            if c.len() == 1 {
                assert(s@ =~= seq!['~']);
            } else {
                assert(seq!['~', '/'].is_prefix_of(s@));
            }
        }
        let mut out = chars_of(home);
        let mut i: usize = 1;
        let ghost h = out@;
        while i < c.len()
            invariant
                1 <= i <= c.len(),
                out@ == h + c@.subrange(1, i as int),
            decreases c.len() - i,
        {
            out.push(c[i]);
            i += 1;
            assert(out@ =~= h + c@.subrange(1, i as int));
        }
        assert(c@.subrange(1, c.len() as int) =~= s@.skip(1));
        string_of(&out)
    } else {
        proof {
            if s@ == seq!['~'] {
                assert(c@[0] == '~');
            }
            if seq!['~', '/'].is_prefix_of(s@) {
                assert(c@[0] == '~' && c@[1] == '/');
            }
        }
        string_of(&c)
    }
}

/// Some entry of `acc` is the same path as `p`: the same string, or a
/// string that `Path` considers equal to it.
pub open spec fn contains_path(acc: Seq<Seq<char>>, p: Seq<char>) -> bool {
    exists|i: int| #![trigger acc[i]] 0 <= i < acc.len() && (acc[i] == p || path_eq(acc[i], p))
}

/// `acc` followed by those candidates, in order, that are not the same path
/// as an entry already there.
pub open spec fn add_unique(acc: Seq<Seq<char>>, cands: Seq<Seq<char>>) -> Seq<Seq<char>>
    decreases cands.len(),
{
    if cands.len() == 0 {
        acc
    } else {
        let a = add_unique(acc, cands.drop_last());
        if contains_path(a, cands.last()) {
            a
        } else {
            a.push(cands.last())
        }
    }
}

/// The search directories for the command-line directories `extra`, the
/// config file's directories `file_dirs` and the home directory `home`.
pub open spec fn search_dirs_spec(extra: Seq<Seq<char>>, file_dirs: Seq<Seq<char>>, home: Seq<char>) -> Seq<
    Seq<char>,
> {
    add_unique(
        add_unique(extra, file_dirs.map_values(|d: Seq<char>| expand_tilde(d, home))),
        default_dirs_spec(),
    )
}

/// Appends `p` to `acc` unless a path equal to it is already there.
fn push_unique(acc: &mut Vec<String>, p: String)
    ensures
        string_views(final(acc)@) == if contains_path(string_views(old(acc)@), p@) {
            string_views(old(acc)@)
        } else {
            string_views(old(acc)@).push(p@)
        },
{
    let mut i: usize = 0;
    let ghost a = string_views(acc@);
    while i < acc.len()
        invariant
            i <= acc.len(),
            a == string_views(acc@),
            forall|j: int| 0 <= j < i ==> a[j] != p@ && !path_eq(a[j], p@),
        decreases acc.len() - i,
    {
        if same_path(acc[i].as_str(), p.as_str()) {
            assert(path_eq(a[i as int], p@));
            return;
        }
        i += 1;
    }
    let ghost pv = p@;
    acc.push(p);
    assert(string_views(acc@) =~= a.push(pv));
}

/// Appends the candidates in order, each unless a path equal to it is there.
fn add_all_unique(acc: &mut Vec<String>, cands: Vec<String>)
    ensures
        string_views(final(acc)@) == add_unique(string_views(old(acc)@), string_views(cands@)),
{
    let ghost a0 = string_views(acc@);
    let mut k: usize = 0;
    while k < cands.len()
        invariant
            k <= cands.len(),
            string_views(acc@) == add_unique(a0, string_views(cands@).take(k as int)),
        decreases cands.len() - k,
    {
        proof {
            let t = string_views(cands@).take(k + 1);
            assert(t.drop_last() =~= string_views(cands@).take(k as int));
            assert(t.last() == cands@[k as int]@);
        }
        push_unique(acc, cands[k].clone());
        k += 1;
    }
    assert(string_views(cands@).take(cands.len() as int) =~= string_views(cands@));
}

impl Config {
    /// Merges the command-line directories `extra_dirs` (highest priority),
    /// the config file `file` (its directories with `~` expanded against
    /// `home`) and the system defaults into the search path, each path once;
    /// the history limit defaults to 100 and screen clearing to on unless
    /// switched off by either source.
    pub fn load(extra_dirs: Vec<String>, file: RawConfig, home: &str, dry_run: bool, no_clear: bool) -> (r:
        Config)
        ensures
            string_views(r.search_dirs@) == search_dirs_spec(
                string_views(extra_dirs@),
                match file.search_dirs {
                    Some(d) => string_views(d@),
                    None => Seq::<Seq<char>>::empty(),
                },
                home@,
            ),
            r.history_limit == match file.history_limit {
                Some(l) => l,
                None => 100,
            },
            r.clear_on_run == (!no_clear && match file.clear_on_run {
                Some(c) => c,
                None => true,
            }),
            r.dry_run == dry_run,
    {
        let mut search_dirs = extra_dirs;
        let ghost extra = string_views(search_dirs@);
        let ghost fd = match &file.search_dirs {
            Some(d) => string_views(d@),
            None => Seq::<Seq<char>>::empty(),
        };
        let mut expanded: Vec<String> = Vec::new();
        match &file.search_dirs {
            Some(dirs) => {
                let mut i: usize = 0;
                while i < dirs.len()
                    invariant
                        i <= dirs.len(),
                        fd == string_views(dirs@),
                        string_views(expanded@) == fd.take(i as int).map_values(
                            |d: Seq<char>| expand_tilde(d, home@),
                        ),
                    decreases dirs.len() - i,
                {
                    let ghost before = string_views(expanded@);
                    let e = shellexpand_tilde(dirs[i].as_str(), home);
                    let ghost ev = e@;
                    expanded.push(e);
                    assert(string_views(expanded@) =~= before.push(ev));
                    assert(fd.take(i + 1).map_values(|d: Seq<char>| expand_tilde(d, home@))
                        =~= fd.take(i as int).map_values(|d: Seq<char>| expand_tilde(d, home@)).push(
                        expand_tilde(fd[i as int], home@),
                    ));
                    i += 1;
                }
                assert(fd.take(dirs.len() as int) =~= fd);
            },
            None => {
                assert(string_views(expanded@) =~= fd.map_values(|d: Seq<char>| expand_tilde(d, home@)));
            },
        }
        add_all_unique(&mut search_dirs, expanded);
        add_all_unique(&mut search_dirs, default_search_dirs());
        let history_limit = match file.history_limit {
            Some(l) => l,
            None => 100,
        };
        let clear_on_run = !no_clear && match file.clear_on_run {
            Some(c) => c,
            None => true,
        };
        Config { search_dirs, history_limit, clear_on_run, dry_run }
    }
}

proof fn lemma_add_unique_prefix(acc: Seq<Seq<char>>, cands: Seq<Seq<char>>)
    ensures
        add_unique(acc, cands).len() >= acc.len(),
        add_unique(acc, cands).take(acc.len() as int) == acc,
    decreases cands.len(),
{
    if cands.len() > 0 {
        lemma_add_unique_prefix(acc, cands.drop_last());
        let a = add_unique(acc, cands.drop_last());
        if !contains_path(a, cands.last()) {
            assert(a.push(cands.last()).take(acc.len() as int) =~= a.take(acc.len() as int));
        }
    }
}

proof fn lemma_add_unique_covers(acc: Seq<Seq<char>>, cands: Seq<Seq<char>>, k: int)
    requires
        0 <= k < cands.len(),
    ensures
        add_unique(acc, cands).contains(cands[k]) || contains_path(add_unique(acc, cands), cands[k]),
    decreases cands.len(),
{
    let a = add_unique(acc, cands.drop_last());
    let r = add_unique(acc, cands);
    if k == cands.len() - 1 {
        if !contains_path(a, cands.last()) {
            assert(r[r.len() - 1] == cands[k]);
        }
    } else {
        lemma_add_unique_covers(acc, cands.drop_last(), k);
        assert(cands.drop_last()[k] == cands[k]);
        lemma_add_unique_prefix(a, seq![cands.last()]);
        if a.contains(cands[k]) {
            let i = choose|i: int| 0 <= i < a.len() && a[i] == cands[k];
            assert(r[i] == a[i]);
        } else {
            let i = choose|i: int| 0 <= i < a.len() && path_eq(a[i], cands[k]);
            assert(r[i] == a[i]);
        }
    }
}

/// The command-line directories come first in the search path, in their
/// order: they have the highest priority.
pub proof fn lemma_cli_dirs_first(extra: Seq<Seq<char>>, file_dirs: Seq<Seq<char>>, home: Seq<char>)
    ensures
        search_dirs_spec(extra, file_dirs, home).len() >= extra.len(),
        search_dirs_spec(extra, file_dirs, home).take(extra.len() as int) == extra,
{
    let fe = file_dirs.map_values(|d: Seq<char>| expand_tilde(d, home));
    let a = add_unique(extra, fe);
    lemma_add_unique_prefix(extra, fe);
    lemma_add_unique_prefix(a, default_dirs_spec());
    assert(add_unique(a, default_dirs_spec()).take(extra.len() as int) =~= a.take(
        a.len() as int,
    ).take(extra.len() as int));
}

/// Every system default directory is on the search path, itself or as a
/// path equal to it.
pub proof fn lemma_defaults_searched(extra: Seq<Seq<char>>, file_dirs: Seq<Seq<char>>, home: Seq<char>, k: int)
    requires
        0 <= k < default_dirs_spec().len(),
    ensures
        search_dirs_spec(extra, file_dirs, home).contains(default_dirs_spec()[k]) || contains_path(
            search_dirs_spec(extra, file_dirs, home),
            default_dirs_spec()[k],
        ),
{
    let fe = file_dirs.map_values(|d: Seq<char>| expand_tilde(d, home));
    lemma_add_unique_covers(add_unique(extra, fe), default_dirs_spec(), k);
}

proof fn lemma_add_unique_distinct(acc: Seq<Seq<char>>, cands: Seq<Seq<char>>)
    ensures
        forall|i: int, j: int|
            #![trigger add_unique(acc, cands)[i], add_unique(acc, cands)[j]]
            0 <= i < j < add_unique(acc, cands).len() && j >= acc.len() ==> add_unique(acc, cands)[i]
                !== add_unique(acc, cands)[j] && !path_eq(add_unique(acc, cands)[i], add_unique(acc, cands)[j]),
    decreases cands.len(),
{
    if cands.len() > 0 {
        lemma_add_unique_distinct(acc, cands.drop_last());
        lemma_add_unique_prefix(acc, cands.drop_last());
        let a = add_unique(acc, cands.drop_last());
        let r = add_unique(acc, cands);
        if !contains_path(a, cands.last()) {
            assert forall|i: int, j: int| 0 <= i < j < r.len() && j >= acc.len() implies r[i] !== r[j]
                && !path_eq(r[i], r[j]) by {
                if j == r.len() - 1 {
                    assert(r[i] == a[i]);
                    assert(r[j] == cands.last());
                    assert(!(a[i] == cands.last() || path_eq(a[i], cands.last())));
                } else {
                    assert(r[i] == a[i] && r[j] == a[j]);
                }
            }
        }
    }
}

/// Past the command-line directories, no search directory is the same path
/// as an earlier one (neither the same string nor a path equal to it): the
/// config file's and the default directories are each taken once.
pub proof fn lemma_search_dirs_distinct(extra: Seq<Seq<char>>, file_dirs: Seq<Seq<char>>, home: Seq<char>)
    ensures
        forall|i: int, j: int|
            #![trigger search_dirs_spec(extra, file_dirs, home)[i], search_dirs_spec(extra, file_dirs, home)[j]]
            0 <= i < j < search_dirs_spec(extra, file_dirs, home).len() && j >= extra.len()
                ==> search_dirs_spec(extra, file_dirs, home)[i] !== search_dirs_spec(extra, file_dirs, home)[j]
                && !path_eq(search_dirs_spec(extra, file_dirs, home)[i], search_dirs_spec(extra, file_dirs, home)[j]),
{
    let fe = file_dirs.map_values(|d: Seq<char>| expand_tilde(d, home));
    let a = add_unique(extra, fe);
    let r = search_dirs_spec(extra, file_dirs, home);
    lemma_add_unique_distinct(extra, fe);
    lemma_add_unique_distinct(a, default_dirs_spec());
    lemma_add_unique_prefix(a, default_dirs_spec());
    assert forall|i: int, j: int|
        #![trigger r[i], r[j]]
        0 <= i < j < r.len() && j >= extra.len() implies r[i] !== r[j]
        && !path_eq(r[i], r[j]) by {
        if j < a.len() {
            assert(r[i] == a[i] && r[j] == a[j]);
        }
    }
}

} // verus!
