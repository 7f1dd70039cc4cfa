//! State of the interactive picker and how each key press changes it.
//! The terminal loop, drawing, file reading for the preview and the
//! clipboard live outside; they read this state and hand key presses in.
use vstd::prelude::*;
use crate::config::Config;
use crate::fuzzy::{rank, item_score, sorted_by_rank, ranks_before};
use crate::history::{HistoryEntry, decimal, decimal_chars};
use crate::scripts::{Script, all_tags, find_by_name, has_tag, has_tag_spec, strip_sh, is_tag_of, strictly_sorted};
use crate::text::{chars_of, string_of, chars_eq, push_char, pop_char, lines, lines_of};
use crate::shell::{ShellKind, shell_spans, shell_spans_chars, span_views};

verus! {

// ── Types ────────────────────────────────────────────────────

/// Which tab the picker shows.
#[derive(Debug, PartialEq, Eq, Structural, Clone, Copy)]
pub enum Tab {
    Scripts,
    History,
    Tags,
}

/// Whether keys go to the search box.
#[derive(Debug, PartialEq, Eq, Structural, Clone, Copy)]
pub enum InputMode {
    Normal,
    Search,
}

/// A key, as the picker distinguishes them.
#[derive(Debug, PartialEq, Eq, Structural, Clone, Copy)]
pub enum KeyCode {
    Char(char),
    Esc,
    Enter,
    Backspace,
    Up,
    Down,
    Left,
    Right,
    Home,
    End,
    PageUp,
    PageDown,
    Tab,
    BackTab,
    Other,
}

/// What the picker ends with.
#[derive(Debug, PartialEq, Eq)]
pub enum AppResult {
    RunScript { path: String, name: String },
    EditScript { path: String },
    Quit,
}

/// What the caller has to do after a key press.
#[derive(Debug, PartialEq, Eq)]
pub enum Outcome {
    /// Nothing; redraw.
    Continue,
    /// A new status message was set (it expires after a few seconds).
    StatusSet,
    /// Copy this path to the clipboard, then report it with `copy_status`.
    CopyPath(String),
    /// Leave the picker with this result.
    Finish(AppResult),
}

/// Lines the preview scrolls per page.
pub const SCROLL_PAGE: usize = 10;

/// Lines the preview scrolls per half page.
pub const SCROLL_HALF: usize = 5;

/// The picker's state.
pub struct App {
    pub all_scripts: Vec<Script>,
    /// (index into `all_scripts`, score) of the listed scripts, best first.
    pub filtered: Vec<(usize, i32)>,
    pub tab: Tab,
    /// Selected row of the scripts list.
    pub list_sel: Option<usize>,
    pub preview_scroll: usize,
    pub mode: InputMode,
    pub search_query: String,
    pub tag_filter: Option<String>,
    pub tag_list: Vec<String>,
    pub tag_list_sel: Option<usize>,
    /// The tags tab's right pane (scripts of the hovered tag) has the focus.
    pub tag_pane_right: bool,
    /// Indices into `all_scripts` of the scripts of the hovered tag.
    pub tag_scripts: Vec<usize>,
    pub tag_scripts_sel: Option<usize>,
    pub history: Vec<HistoryEntry>,
    pub history_sel: Option<usize>,
    pub status_msg: Option<String>,
    /// (script index, file contents) shown in the preview.
    pub preview_cache: Option<(usize, String)>,
    pub dry_run: bool,
}

/// The picker's state as plain values.
pub struct AppView {
    pub scripts: Seq<Script>,
    pub filtered: Seq<(usize, i32)>,
    pub tab: Tab,
    pub list_sel: Option<usize>,
    pub preview_scroll: usize,
    pub mode: InputMode,
    pub query: Seq<char>,
    pub tag_filter: Option<Seq<char>>,
    pub tag_list: Seq<Seq<char>>,
    pub tag_list_sel: Option<usize>,
    pub tag_pane_right: bool,
    pub tag_scripts: Seq<usize>,
    pub tag_scripts_sel: Option<usize>,
    pub history: Seq<HistoryEntry>,
    pub history_sel: Option<usize>,
    pub status: Option<Seq<char>>,
    pub preview: Option<(usize, Seq<char>)>,
    pub dry_run: bool,
}

/// The characters of an optional string.
pub open spec fn opt_view(o: Option<String>) -> Option<Seq<char>> {
    match o {
        Some(s) => Some(s@),
        None => None,
    }
}

impl View for App {
    type V = AppView;

    open spec fn view(&self) -> AppView {
        AppView {
            scripts: self.all_scripts@,
            filtered: self.filtered@,
            tab: self.tab,
            list_sel: self.list_sel,
            preview_scroll: self.preview_scroll,
            mode: self.mode,
            query: self.search_query@,
            tag_filter: opt_view(self.tag_filter),
            tag_list: self.tag_list@.map_values(|s: String| s@),
            tag_list_sel: self.tag_list_sel,
            tag_pane_right: self.tag_pane_right,
            tag_scripts: self.tag_scripts@,
            tag_scripts_sel: self.tag_scripts_sel,
            history: self.history@,
            history_sel: self.history_sel,
            status: opt_view(self.status_msg),
            preview: match self.preview_cache {
                Some((i, s)) => Some((i, s@)),
                None => None,
            },
            dry_run: self.dry_run,
        }
    }
}

// ── Well-formedness ──────────────────────────────────────────

/// A selection lies inside a list of `len` rows.
pub open spec fn sel_in(sel: Option<usize>, len: nat) -> bool {
    match sel {
        Some(i) => i < len,
        None => true,
    }
}

/// Every index and selection of the state points inside its list.
pub open spec fn wf(v: AppView) -> bool {
    &&& forall|k: int| 0 <= k < v.filtered.len() ==> (#[trigger] v.filtered[k]).0 < v.scripts.len()
    &&& forall|k: int| 0 <= k < v.tag_scripts.len() ==> #[trigger] v.tag_scripts[k] < v.scripts.len()
    &&& sel_in(v.list_sel, v.filtered.len())
    &&& sel_in(v.history_sel, v.history.len())
    &&& sel_in(v.tag_list_sel, v.tag_list.len())
    &&& sel_in(v.tag_scripts_sel, v.tag_scripts.len())
}

// ── Lists and selections ─────────────────────────────────────

/// Length of the list that has the focus.
pub open spec fn list_len(v: AppView) -> nat {
    match v.tab {
        Tab::Scripts => v.filtered.len(),
        Tab::History => v.history.len(),
        Tab::Tags => if v.tag_pane_right {
            v.tag_scripts.len()
        } else {
            v.tag_list.len()
        },
    }
}

/// Selection of the list that has the focus.
pub open spec fn active_sel(v: AppView) -> Option<usize> {
    match v.tab {
        Tab::Scripts => v.list_sel,
        Tab::History => v.history_sel,
        Tab::Tags => if v.tag_pane_right {
            v.tag_scripts_sel
        } else {
            v.tag_list_sel
        },
    }
}

/// `v` with the selection of the focused list set to `sel`.
pub open spec fn with_active_sel(v: AppView, sel: Option<usize>) -> AppView {
    match v.tab {
        Tab::Scripts => AppView { list_sel: sel, ..v },
        Tab::History => AppView { history_sel: sel, ..v },
        Tab::Tags => if v.tag_pane_right {
            AppView { tag_scripts_sel: sel, ..v }
        } else {
            AppView { tag_list_sel: sel, ..v }
        },
    }
}

/// How often the tag `t` occurs among `tags`.
pub open spec fn tag_count_in(tags: Seq<String>, t: Seq<char>) -> nat
    decreases tags.len(),
{
    if tags.len() == 0 {
        0
    } else {
        tag_count_in(tags.drop_last(), t) + if tags.last()@ == t {
            1nat
        } else {
            0nat
        }
    }
}

/// The script indices listed under the tag `t`: each script's index once
/// per occurrence of `t` among its tags, in script order.
pub open spec fn tag_occ(scripts: Seq<Script>, t: Seq<char>) -> Seq<usize>
    decreases scripts.len(),
{
    if scripts.len() == 0 {
        Seq::<usize>::empty()
    } else {
        tag_occ(scripts.drop_last(), t) + Seq::new(
            tag_count_in(scripts.last().tags@, t),
            |j: int| (scripts.len() - 1) as usize,
        )
    }
}

/// The tag under the cursor of the tag list.
pub open spec fn hovered_tag(v: AppView) -> Option<Seq<char>> {
    match v.tag_list_sel {
        Some(i) => if i < v.tag_list.len() {
            Some(v.tag_list[i as int])
        } else {
            None
        },
        None => None,
    }
}

/// `v` with the scripts of the hovered tag recomputed and the first selected.
pub open spec fn refreshed(v: AppView) -> AppView {
    let ts = match hovered_tag(v) {
        Some(t) => tag_occ(v.scripts, t),
        None => Seq::<usize>::empty(),
    };
    AppView {
        tag_scripts: ts,
        tag_scripts_sel: if ts.len() == 0 {
            None
        } else {
            Some(0usize)
        },
        ..v
    }
}

/// `v` after moving the focused selection one row down (or up), wrapping
/// around at either end.
pub open spec fn moved(v: AppView, down: bool) -> AppView {
    let len = list_len(v);
    if len == 0 {
        v
    } else {
        let cur: int = match active_sel(v) {
            Some(i) => i as int,
            None => 0,
        };
        let next = ((cur + if down { 1int } else { -1int }) % (len as int)) as usize;
        let w = with_active_sel(v, Some(next));
        let w = if v.tab == Tab::Scripts {
            AppView { preview_scroll: 0, preview: None, ..w }
        } else {
            w
        };
        if v.tab == Tab::Tags && !v.tag_pane_right {
            refreshed(w)
        } else {
            w
        }
    }
}

/// `v` after jumping the focused selection to row `idx` (or the last row).
pub open spec fn jumped(v: AppView, idx: usize) -> AppView {
    let len = list_len(v);
    let w = if len == 0 {
        with_active_sel(v, None)
    } else {
        with_active_sel(v, Some(if idx < len { idx } else { (len - 1) as usize }))
    };
    let w = AppView { preview_scroll: 0, ..w };
    let w = if v.tab == Tab::Scripts {
        AppView { preview: None, ..w }
    } else {
        w
    };
    if v.tab == Tab::Tags && !v.tag_pane_right {
        refreshed(w)
    } else {
        w
    }
}

impl App {
    /// Length of the list that has the focus.
    pub fn current_list_len(&self) -> (r: usize)
        ensures
            r == list_len(self@),
    {
        match self.tab {
            Tab::Scripts => self.filtered.len(),
            Tab::History => self.history.len(),
            Tab::Tags => if self.tag_pane_right {
                self.tag_scripts.len()
            } else {
                self.tag_list.len()
            },
        }
    }

    fn active_selection(&self) -> (r: Option<usize>)
        ensures
            r == active_sel(self@),
    {
        match self.tab {
            Tab::Scripts => self.list_sel,
            Tab::History => self.history_sel,
            Tab::Tags => if self.tag_pane_right {
                self.tag_scripts_sel
            } else {
                self.tag_list_sel
            },
        }
    }

    fn set_active_selection(&mut self, sel: Option<usize>)
        ensures
            final(self)@ == with_active_sel(old(self)@, sel),
    {
        match self.tab {
            Tab::Scripts => self.list_sel = sel,
            Tab::History => self.history_sel = sel,
            Tab::Tags => if self.tag_pane_right {
                self.tag_scripts_sel = sel
            } else {
                self.tag_list_sel = sel
            },
        }
    }

    /// Recomputes the scripts of the hovered tag and selects the first.
    fn refresh_tag_scripts(&mut self)
        requires
            wf(old(self)@),
        ensures
            final(self)@ == refreshed(old(self)@),
            wf(final(self)@),
    {
        let ghost v = self@;
        let tag = match self.tag_list_sel {
            Some(i) => if i < self.tag_list.len() {
                Some(chars_of(self.tag_list[i].as_str()))
            } else {
                None
            },
            None => None,
        };
        let ts = match tag {
            Some(t) => {
                assert(t@ == hovered_tag(v)->0);
                self.scripts_with_tag(&t)
            },
            None => Vec::new(),
        };
        proof {
            lemma_tag_occ_bounded(v.scripts, match hovered_tag(v) { Some(t) => t, None => Seq::<char>::empty() });
        }
        self.tag_scripts_sel = if ts.len() == 0 { None } else { Some(0) };
        self.tag_scripts = ts;
    }

    /// Moves the focused selection one row down (`down`) or up, wrapping.
    fn move_sel(&mut self, down: bool)
        requires
            wf(old(self)@),
        ensures
            final(self)@ == moved(old(self)@, down),
            wf(final(self)@),
    {
        let len = self.current_list_len();
        if len == 0 {
            return;
        }
        let cur = match self.active_selection() {
            Some(i) => i,
            None => 0,
        };
        let next = if down {
            (cur + 1) % len
        } else if cur == 0 {
            len - 1
        } else {
            cur - 1
        };
        proof {
            let d: int = if down { 1 } else { -1 };
            if !down && cur == 0 {
                assert((cur as int + d) % (len as int) == len - 1) by {
                    vstd::arithmetic::div_mod::lemma_fundamental_div_mod_converse(-1, len as int, -1, len - 1);
                }
            }
            if !down && cur > 0 {
                assert((cur as int + d) % (len as int) == cur - 1) by {
                    vstd::arithmetic::div_mod::lemma_small_mod((cur - 1) as nat, len as nat);
                }
            }
        }
        self.set_active_selection(Some(next));
        if self.tab == Tab::Scripts {
            self.preview_scroll = 0;
            self.preview_cache = None;
        }
        if self.tab == Tab::Tags && !self.tag_pane_right {
            self.refresh_tag_scripts();
        }
    }

    /// Moves the focused selection to row `idx`, or the last row.
    fn jump_sel(&mut self, idx: usize)
        requires
            wf(old(self)@),
        ensures
            final(self)@ == jumped(old(self)@, idx),
            wf(final(self)@),
    {
        let len = self.current_list_len();
        if len == 0 {
            self.set_active_selection(None);
        } else {
            self.set_active_selection(Some(if idx < len { idx } else { len - 1 }));
        }
        self.preview_scroll = 0;
        if self.tab == Tab::Scripts {
            self.preview_cache = None;
        }
        if self.tab == Tab::Tags && !self.tag_pane_right {
            self.refresh_tag_scripts();
        }
    }
}

/// Script `i` passes the tag filter.
pub open spec fn in_base(scripts: Seq<Script>, tag_filter: Option<Seq<char>>, i: int) -> bool {
    match tag_filter {
        Some(t) => has_tag_spec(scripts[i], t),
        None => true,
    }
}

/// `f` is the ranking of the scripts that pass the tag filter against the
/// query: (index, score) of each matching one, best first, ties by index.
pub open spec fn ranked_ok(
    scripts: Seq<Script>,
    query: Seq<char>,
    tag_filter: Option<Seq<char>>,
    f: Seq<(usize, i32)>,
) -> bool {
    &&& forall|k: int|
        0 <= k < f.len() ==> (#[trigger] f[k]).0 < scripts.len() && in_base(scripts, tag_filter, f[k].0 as int)
            && item_score(query, scripts[f[k].0 as int]) == Some(f[k].1 as int)
    &&& forall|i: int|
        0 <= i < scripts.len() && in_base(scripts, tag_filter, i) && (#[trigger] item_score(
            query,
            scripts[i],
        )) is Some ==> exists|k: int| 0 <= k < f.len() && f[k].0 == i
    &&& sorted_by_rank(f)
}

/// `post` is `pre` with the list recomputed from the query and tag filter,
/// the first row selected and the preview reset.
pub open spec fn refiltered(pre: AppView, post: AppView) -> bool {
    &&& ranked_ok(pre.scripts, pre.query, pre.tag_filter, post.filtered)
    &&& post == AppView {
        filtered: post.filtered,
        list_sel: if post.filtered.len() == 0 {
            None
        } else {
            Some(0usize)
        },
        preview_scroll: 0,
        preview: None,
        ..pre
    }
}

impl App {
    /// Recomputes the listed scripts from the query and the tag filter.
    fn refilter(&mut self)
        requires
            wf(old(self)@),
        ensures
            refiltered(old(self)@, final(self)@),
            wf(final(self)@),
    {
        let ghost v = self@;
        let mut base: Vec<usize> = Vec::new();
        let mut refs: Vec<&Script> = Vec::new();
        let mut i: usize = 0;
        while i < self.all_scripts.len()
            invariant
                i <= self.all_scripts.len(),
                self@ == v,
                base@.len() == refs@.len(),
                forall|k: int| 0 <= k < base@.len() ==> (#[trigger] base@[k]) < i,
                forall|k: int, l: int| 0 <= k < l < base@.len() ==> base@[k] < base@[l],
                forall|k: int|
                    0 <= k < base@.len() ==> *refs@[k] == v.scripts[#[trigger] base@[k] as int]
                        && in_base(v.scripts, v.tag_filter, base@[k] as int),
                forall|j: int|
                    0 <= j < i && in_base(v.scripts, v.tag_filter, j) ==> exists|k: int|
                        0 <= k < base@.len() && #[trigger] base@[k] == j,
            decreases self.all_scripts.len() - i,
        {
            let keep = match &self.tag_filter {
                Some(tag) => has_tag(&self.all_scripts[i], tag.as_str()),
                None => true,
            };
            let ghost old_base = base@;
            if keep {
                base.push(i);
                refs.push(&self.all_scripts[i]);
                assert(base@[base@.len() - 1] == i);
            }
            proof {
                assert forall|j: int|
                    0 <= j < i + 1 && in_base(v.scripts, v.tag_filter, j) implies exists|k: int|
                        0 <= k < base@.len() && #[trigger] base@[k] == j by {
                    if j < i {
                        let k = choose|k: int| 0 <= k < old_base.len() && #[trigger] old_base[k] == j;
                        assert(base@[k] == j);
                    } else {
                        assert(keep);
                        assert(base@[base@.len() - 1] == j);
                    }
                }
            }
            i += 1;
        }
        let ranked = rank(self.search_query.as_str(), refs.as_slice());
        let mut filtered: Vec<(usize, i32)> = Vec::new();
        let mut k: usize = 0;
        assert(forall|m: int| 0 <= m < ranked@.len() ==> (#[trigger] ranked@[m]).0 < base@.len());
        while k < ranked.len()
            invariant
                k <= ranked.len(),
                forall|m: int| 0 <= m < ranked@.len() ==> (#[trigger] ranked@[m]).0 < base@.len(),
                filtered@.len() == k,
                forall|m: int|
                    0 <= m < k ==> #[trigger] filtered@[m] == (base@[ranked@[m].0 as int], ranked@[m].1),
            decreases ranked.len() - k,
        {
            let (li, sc) = ranked[k];
            filtered.push((base[li], sc));
            k += 1;
        }
        proof {
            let f = filtered@;
            assert forall|m: int| 0 <= m < f.len() implies (#[trigger] f[m]).0 < v.scripts.len() && in_base(
                v.scripts,
                v.tag_filter,
                f[m].0 as int,
            ) && item_score(v.query, v.scripts[f[m].0 as int]) == Some(f[m].1 as int) by {
                assert(f[m] == (base@[ranked@[m].0 as int], ranked@[m].1));
            }
            assert forall|j: int|
                0 <= j < v.scripts.len() && in_base(v.scripts, v.tag_filter, j) && (#[trigger] item_score(
                    v.query,
                    v.scripts[j],
                )) is Some implies exists|m: int| 0 <= m < f.len() && f[m].0 == j by {
                let li = choose|li: int| 0 <= li < base@.len() && #[trigger] base@[li] == j;
                assert(*refs@[li] == v.scripts[j]);
                assert(item_score(v.query, *refs@[li]) is Some);
                let m = choose|m: int| 0 <= m < ranked@.len() && ranked@[m].0 == li;
                assert(f[m] == (base@[ranked@[m].0 as int], ranked@[m].1));
            }
            assert forall|m: int, l: int| 0 <= m < l < f.len() implies ranks_before(f[m], f[l]) by {
                assert(f[m] == (base@[ranked@[m].0 as int], ranked@[m].1));
                assert(f[l] == (base@[ranked@[l].0 as int], ranked@[l].1));
                assert(ranks_before(ranked@[m], ranked@[l]));
            }
        }
        self.list_sel = if filtered.len() == 0 { None } else { Some(0) };
        self.filtered = filtered;
        self.preview_scroll = 0;
        self.preview_cache = None;
    }
}

// ── Results ──────────────────────────────────────────────────

/// An `AppResult` as plain values.
pub enum ResultView {
    Run { path: Seq<char>, name: Seq<char> },
    Edit { path: Seq<char> },
    Quit,
}

/// An `Outcome` as plain values.
pub enum OutcomeView {
    Continue,
    StatusSet,
    Copy(Seq<char>),
    Finish(ResultView),
}

pub open spec fn result_view(r: AppResult) -> ResultView {
    match r {
        AppResult::RunScript { path, name } => ResultView::Run { path: path@, name: name@ },
        AppResult::EditScript { path } => ResultView::Edit { path: path@ },
        AppResult::Quit => ResultView::Quit,
    }
}

pub open spec fn outcome_view(o: Outcome) -> OutcomeView {
    match o {
        Outcome::Continue => OutcomeView::Continue,
        Outcome::StatusSet => OutcomeView::StatusSet,
        Outcome::CopyPath(p) => OutcomeView::Copy(p@),
        Outcome::Finish(r) => OutcomeView::Finish(result_view(r)),
    }
}

// ── Selection and actions ────────────────────────────────────

/// Index into the scripts of the selected row of the scripts list.
pub open spec fn selected_idx(v: AppView) -> Option<usize> {
    match v.list_sel {
        Some(i) => if i < v.filtered.len() {
            Some(v.filtered[i as int].0)
        } else {
            None
        },
        None => None,
    }
}

/// The selected script of the scripts list.
pub open spec fn selected_script_spec(v: AppView) -> Option<Script> {
    match selected_idx(v) {
        Some(si) => if si < v.scripts.len() {
            Some(v.scripts[si as int])
        } else {
            None
        },
        None => None,
    }
}

/// Running the script `s`.
pub open spec fn run_of(s: Script) -> ResultView {
    ResultView::Run { path: s.path@, name: s.name@ }
}

/// `post` is `v` after filtering by the hovered tag (if any): the filter is
/// set, the scripts tab shown, the list recomputed and a status message set.
pub open spec fn applied_tag(v: AppView, post: AppView) -> bool {
    match hovered_tag(v) {
        Some(t) => {
            &&& refiltered(
                AppView { tag_filter: Some(t), tab: Tab::Scripts, ..v },
                AppView { status: v.status, ..post },
            )
            &&& post.status == Some("Filtered by tag: "@ + t)
        },
        None => post == v,
    }
}

/// What filtering by the hovered tag reports.
pub open spec fn applied_outcome(v: AppView) -> OutcomeView {
    if hovered_tag(v) is Some {
        OutcomeView::StatusSet
    } else {
        OutcomeView::Continue
    }
}

/// The script run from a history entry: the current script of that name if
/// there is one, else the path the history remembers.
pub open spec fn history_run(v: AppView, e: HistoryEntry) -> ResultView {
    if exists|i: int| 0 <= i < v.scripts.len() && v.scripts[i].name@ == strip_sh(e.name@) {
        let i = choose|i: int|
            0 <= i < v.scripts.len() && v.scripts[i].name@ == strip_sh(e.name@) && forall|j: int|
                0 <= j < i ==> v.scripts[j].name@ != strip_sh(e.name@);
        ResultView::Run { path: v.scripts[i].path@, name: e.name@ }
    } else {
        ResultView::Run { path: e.path@, name: e.name@ }
    }
}

/// Enter (or `r`): run the selected script of the focused tab; on the tag
/// list, filter by the hovered tag instead.
pub open spec fn run_action(v: AppView, post: AppView, out: OutcomeView) -> bool {
    match v.tab {
        Tab::Scripts => post == v && out == match selected_script_spec(v) {
            Some(s) => OutcomeView::Finish(run_of(s)),
            None => OutcomeView::Continue,
        },
        Tab::History => post == v && out == match v.history_sel {
            Some(i) => if i < v.history.len() {
                OutcomeView::Finish(history_run(v, v.history[i as int]))
            } else {
                OutcomeView::Continue
            },
            None => OutcomeView::Continue,
        },
        Tab::Tags => if v.tag_pane_right {
            post == v && out == match v.tag_scripts_sel {
                Some(i) => if i < v.tag_scripts.len() && v.tag_scripts[i as int] < v.scripts.len() {
                    OutcomeView::Finish(run_of(v.scripts[v.tag_scripts[i as int] as int]))
                } else {
                    OutcomeView::Continue
                },
                None => OutcomeView::Continue,
            }
        } else {
            applied_tag(v, post) && out == applied_outcome(v)
        },
    }
}

/// `e`: edit the selected script of the scripts list.
pub open spec fn edit_outcome(v: AppView) -> OutcomeView {
    match selected_script_spec(v) {
        Some(s) => OutcomeView::Finish(ResultView::Edit { path: s.path@ }),
        None => OutcomeView::Continue,
    }
}

/// The tab after `t` when cycling.
pub open spec fn next_tab(t: Tab) -> Tab {
    match t {
        Tab::Scripts => Tab::History,
        Tab::History => Tab::Tags,
        Tab::Tags => Tab::Scripts,
    }
}

/// `v` showing the tags tab: the first tag hovered if none was, the tag list
/// focused and the hovered tag's scripts recomputed.
pub open spec fn entered_tags(v: AppView) -> AppView {
    let w = AppView { tab: Tab::Tags, ..v };
    let w = if w.tag_list_sel is None && w.tag_list.len() > 0 {
        AppView { tag_list_sel: Some(0usize), ..w }
    } else {
        w
    };
    refreshed(AppView { tag_pane_right: false, ..w })
}

/// `v` after Tab: the next tab, preview scrolled to the top.
pub open spec fn tabbed(v: AppView) -> AppView {
    let t = next_tab(v.tab);
    if t == Tab::Tags {
        AppView { preview_scroll: 0, ..entered_tags(v) }
    } else {
        AppView { tab: t, preview_scroll: 0, ..v }
    }
}

/// `a - b`, or 0 below zero.
pub open spec fn sat_sub(a: usize, b: usize) -> usize {
    if a >= b {
        (a - b) as usize
    } else {
        0
    }
}

/// `a + b`, or `usize::MAX` above it.
pub open spec fn sat_add(a: usize, b: usize) -> usize {
    if a + b <= usize::MAX {
        (a + b) as usize
    } else {
        usize::MAX
    }
}

/// A key in normal mode: `post` and `out` are the new state and what the
/// caller has to do.
pub open spec fn normal_key(v: AppView, code: KeyCode, ctrl: bool, post: AppView, out: OutcomeView) -> bool {
    if (code == KeyCode::Char('c') && ctrl) || code == KeyCode::Char('q') {
        post == v && out == OutcomeView::Finish(ResultView::Quit)
    } else if code == KeyCode::Enter || code == KeyCode::Char('r') {
        run_action(v, post, out)
    } else if code == KeyCode::Char('e') {
        post == v && out == edit_outcome(v)
    } else if code == KeyCode::Char('y') {
        post == v && out == match selected_script_spec(v) {
            Some(s) => OutcomeView::Copy(s.path@),
            None => OutcomeView::Continue,
        }
    } else if code == KeyCode::Char('t') && v.tab == Tab::Tags {
        applied_tag(v, post) && out == applied_outcome(v)
    } else if code == KeyCode::Char('T') && v.tag_filter is Some {
        &&& refiltered(AppView { tag_filter: None, ..v }, AppView { status: v.status, ..post })
        &&& post.status == Some("Tag filter cleared"@)
        &&& out == OutcomeView::StatusSet
    } else if code == KeyCode::Esc && (v.query.len() > 0 || v.tag_filter is Some) {
        refiltered(AppView { query: Seq::<char>::empty(), tag_filter: None, ..v }, post) && out
            == OutcomeView::Continue
    } else {
        out == OutcomeView::Continue && post == normal_key_plain(v, code, ctrl)
    }
}

/// The keys of normal mode that change the state in a way given by a function.
pub open spec fn normal_key_plain(v: AppView, code: KeyCode, ctrl: bool) -> AppView {
    if code == KeyCode::Tab || code == KeyCode::BackTab {
        tabbed(v)
    } else if code == KeyCode::Up || code == KeyCode::Char('k') {
        moved(v, false)
    } else if code == KeyCode::Down || code == KeyCode::Char('j') {
        moved(v, true)
    } else if code == KeyCode::Left || code == KeyCode::Char('h') {
        if v.tab == Tab::Tags && v.tag_pane_right {
            AppView { tag_pane_right: false, ..v }
        } else {
            v
        }
    } else if code == KeyCode::Right || code == KeyCode::Char('l') {
        if v.tab == Tab::Tags && !v.tag_pane_right && v.tag_scripts.len() > 0 {
            AppView {
                tag_pane_right: true,
                tag_scripts_sel: if v.tag_scripts_sel is None {
                    Some(0usize)
                } else {
                    v.tag_scripts_sel
                },
                ..v
            }
        } else {
            v
        }
    } else if code == KeyCode::Char('g') || code == KeyCode::Home {
        jumped(v, 0)
    } else if code == KeyCode::Char('G') || code == KeyCode::End {
        jumped(v, if list_len(v) > 0 { (list_len(v) - 1) as usize } else { 0 })
    } else if code == KeyCode::PageUp {
        AppView { preview_scroll: sat_sub(v.preview_scroll, SCROLL_PAGE), ..v }
    } else if code == KeyCode::PageDown {
        AppView { preview_scroll: sat_add(v.preview_scroll, SCROLL_PAGE), ..v }
    } else if code == KeyCode::Char('u') && ctrl {
        AppView { preview_scroll: sat_sub(v.preview_scroll, SCROLL_HALF), ..v }
    } else if code == KeyCode::Char('d') && ctrl {
        AppView { preview_scroll: sat_add(v.preview_scroll, SCROLL_HALF), ..v }
    } else if code == KeyCode::Char('/') && v.tab == Tab::Scripts {
        AppView {
            mode: if v.mode == InputMode::Search {
                InputMode::Normal
            } else {
                InputMode::Search
            },
            ..v
        }
    } else if code == KeyCode::Esc {
        AppView { query: Seq::<char>::empty(), tag_filter: None, ..v }
    } else if code == KeyCode::Char('t') && v.tab == Tab::Scripts {
        entered_tags(v)
    } else {
        v
    }
}

/// A key while typing a search: `post` is the new state.
pub open spec fn search_key(v: AppView, code: KeyCode, post: AppView) -> bool {
    match code {
        KeyCode::Esc => refiltered(
            AppView { mode: InputMode::Normal, query: Seq::<char>::empty(), ..v },
            post,
        ),
        KeyCode::Char(c) => if c == '/' {
            post == AppView { mode: InputMode::Normal, ..v }
        } else {
            refiltered(AppView { query: v.query.push(c), ..v }, post)
        },
        KeyCode::Enter => post == AppView { mode: InputMode::Normal, ..v },
        KeyCode::Backspace => refiltered(
            AppView {
                query: if v.query.len() > 0 {
                    v.query.drop_last()
                } else {
                    v.query
                },
                ..v
            },
            post,
        ),
        KeyCode::Up => post == moved(v, false),
        KeyCode::Down => post == moved(v, true),
        _ => post == v,
    }
}

impl App {
    /// Index into `all_scripts` of the selected row of the scripts list.
    pub fn selected_script_idx(&self) -> (r: Option<usize>)
        ensures
            r == selected_idx(self@),
    {
        match self.list_sel {
            Some(i) => if i < self.filtered.len() {
                Some(self.filtered[i].0)
            } else {
                None
            },
            None => None,
        }
    }

    /// The selected script of the scripts list.
    pub fn selected_script(&self) -> (r: Option<&Script>)
        ensures
            match r {
                Some(s) => selected_script_spec(self@) == Some(*s),
                None => selected_script_spec(self@) is None,
            },
    {
        match self.selected_script_idx() {
            Some(si) => if si < self.all_scripts.len() {
                Some(&self.all_scripts[si])
            } else {
                None
            },
            None => None,
        }
    }

    /// Shows `msg` in the status line.
    pub fn set_status(&mut self, msg: String)
        ensures
            final(self)@ == (AppView { status: Some(msg@), ..old(self)@ }),
    {
        self.status_msg = Some(msg);
    }

    /// Removes the status message (once it has expired).
    pub fn clear_status(&mut self)
        ensures
            final(self)@ == (AppView { status: None, ..old(self)@ }),
    {
        self.status_msg = None;
    }

    /// Filters the scripts list by the hovered tag and shows it.
    fn apply_tag(&mut self) -> (applied: bool)
        requires
            wf(old(self)@),
        ensures
            applied_tag(old(self)@, final(self)@),
            applied == (hovered_tag(old(self)@) is Some),
            wf(final(self)@),
    {
        let tag = match self.tag_list_sel {
            Some(i) => if i < self.tag_list.len() {
                Some(self.tag_list[i].clone())
            } else {
                None
            },
            None => None,
        };
        match tag {
            Some(tag) => {
                let mut msg = String::from_str("Filtered by tag: ");
                msg.append(tag.as_str());
                self.tag_filter = Some(tag);
                self.tab = Tab::Scripts;
                let ghost before = self@;
                self.refilter();
                let ghost mid = self@;
                self.set_status(msg);
                assert(AppView { status: before.status, ..self@ } == mid);
                true
            },
            None => false,
        }
    }

    /// The script to run for Enter on the focused tab (or the tag filter to
    /// apply on the tag list).
    fn action_run(&mut self) -> (r: Outcome)
        requires
            wf(old(self)@),
        ensures
            run_action(old(self)@, final(self)@, outcome_view(r)),
            wf(final(self)@),
    {
        match self.tab {
            Tab::Scripts => match self.selected_script() {
                Some(s) => Outcome::Finish(AppResult::RunScript { path: s.path.clone(), name: s.name.clone() }),
                None => Outcome::Continue,
            },
            Tab::History => match self.history_sel {
                Some(i) => if i < self.history.len() {
                    let e = &self.history[i];
                    let path = match find_by_name(self.all_scripts.as_slice(), e.name.as_str()) {
                        Some(s) => s.path.clone(),
                        None => e.path.clone(),
                    };
                    proof {
                        let v = self@;
                        if exists|k: int| 0 <= k < v.scripts.len() && v.scripts[k].name@ == strip_sh(e.name@) {
                            let k = choose|k: int| 0 <= k < v.scripts.len() && v.scripts[k].name@ == strip_sh(e.name@);
                            lemma_first_named_script(v.scripts, strip_sh(e.name@), k);
                        }
                    }
                    Outcome::Finish(AppResult::RunScript { path, name: e.name.clone() })
                } else {
                    Outcome::Continue
                },
                None => Outcome::Continue,
            },
            Tab::Tags => if self.tag_pane_right {
                match self.tag_scripts_sel {
                    Some(i) => if i < self.tag_scripts.len() && self.tag_scripts[i] < self.all_scripts.len() {
                        let s = &self.all_scripts[self.tag_scripts[i]];
                        Outcome::Finish(AppResult::RunScript { path: s.path.clone(), name: s.name.clone() })
                    } else {
                        Outcome::Continue
                    },
                    None => Outcome::Continue,
                }
            } else {
                if self.apply_tag() {
                    Outcome::StatusSet
                } else {
                    Outcome::Continue
                }
            },
        }
    }

    /// Editing the selected script of the scripts list.
    fn action_edit(&self) -> (r: Outcome)
        ensures
            outcome_view(r) == edit_outcome(self@),
    {
        match self.selected_script() {
            Some(s) => Outcome::Finish(AppResult::EditScript { path: s.path.clone() }),
            None => Outcome::Continue,
        }
    }

    /// Shows the tags tab with the tag list focused.
    fn enter_tags(&mut self)
        requires
            wf(old(self)@),
        ensures
            final(self)@ == entered_tags(old(self)@),
            wf(final(self)@),
    {
        self.tab = Tab::Tags;
        if self.tag_list_sel.is_none() && self.tag_list.len() > 0 {
            self.tag_list_sel = Some(0);
        }
        self.tag_pane_right = false;
        self.refresh_tag_scripts();
    }

    /// Handles a key while the search box has the focus.
    fn handle_search_key(&mut self, code: KeyCode)
        requires
            wf(old(self)@),
        ensures
            search_key(old(self)@, code, final(self)@),
            wf(final(self)@),
    {
        match code {
            KeyCode::Esc => {
                self.mode = InputMode::Normal;
                self.search_query = String::new();
                self.refilter();
            },
            KeyCode::Char(c) => {
                if c == '/' {
                    self.mode = InputMode::Normal;
                } else {
                    push_char(&mut self.search_query, c);
                    self.refilter();
                }
            },
            KeyCode::Enter => {
                self.mode = InputMode::Normal;
            },
            KeyCode::Backspace => {
                pop_char(&mut self.search_query);
                self.refilter();
            },
            KeyCode::Up => self.move_sel(false),
            KeyCode::Down => self.move_sel(true),
            _ => {},
        }
    }

    /// Handles a key as normal mode does (see `normal_key`; for Tab and
    /// Shift-Tab, `lemma_tab_step` and `lemma_tab_cycle`).
    pub fn handle_normal_key(&mut self, code: KeyCode, ctrl: bool) -> (r: Outcome)
        requires
            wf(old(self)@),
        ensures
            normal_key(old(self)@, code, ctrl, final(self)@, outcome_view(r)),
            wf(final(self)@),
    {
        if (code == KeyCode::Char('c') && ctrl) || code == KeyCode::Char('q') {
            return Outcome::Finish(AppResult::Quit);
        }
        if code == KeyCode::Enter || code == KeyCode::Char('r') {
            return self.action_run();
        }
        if code == KeyCode::Char('e') {
            return self.action_edit();
        }
        if code == KeyCode::Char('y') {
            return match self.selected_script() {
                Some(s) => Outcome::CopyPath(s.path.clone()),
                None => Outcome::Continue,
            };
        }
        if code == KeyCode::Char('t') && self.tab == Tab::Tags {
            return if self.apply_tag() {
                Outcome::StatusSet
            } else {
                Outcome::Continue
            };
        }
        if code == KeyCode::Char('T') && self.tag_filter.is_some() {
            self.tag_filter = None;
            self.refilter();
            self.set_status(String::from_str("Tag filter cleared"));
            return Outcome::StatusSet;
        }
        if code == KeyCode::Esc {
            let changed = self.search_query.as_str().unicode_len() > 0 || self.tag_filter.is_some();
            self.search_query = String::new();
            self.tag_filter = None;
            if changed {
                self.refilter();
            }
            return Outcome::Continue;
        }
        if code == KeyCode::Tab || code == KeyCode::BackTab {
            match self.tab {
                Tab::Scripts => self.tab = Tab::History,
                Tab::History => self.enter_tags(),
                Tab::Tags => self.tab = Tab::Scripts,
            }
            self.preview_scroll = 0;
        } else if code == KeyCode::Up || code == KeyCode::Char('k') {
            self.move_sel(false);
        } else if code == KeyCode::Down || code == KeyCode::Char('j') {
            self.move_sel(true);
        } else if code == KeyCode::Left || code == KeyCode::Char('h') {
            if self.tab == Tab::Tags && self.tag_pane_right {
                self.tag_pane_right = false;
            }
        } else if code == KeyCode::Right || code == KeyCode::Char('l') {
            if self.tab == Tab::Tags && !self.tag_pane_right && self.tag_scripts.len() > 0 {
                self.tag_pane_right = true;
                if self.tag_scripts_sel.is_none() {
                    self.tag_scripts_sel = Some(0);
                }
            }
        } else if code == KeyCode::Char('g') || code == KeyCode::Home {
            self.jump_sel(0);
        } else if code == KeyCode::Char('G') || code == KeyCode::End {
            let len = self.current_list_len();
            self.jump_sel(if len > 0 { len - 1 } else { 0 });
        } else if code == KeyCode::PageUp {
            self.preview_scroll = self.preview_scroll.saturating_sub(SCROLL_PAGE);
        } else if code == KeyCode::PageDown {
            self.preview_scroll = self.preview_scroll.saturating_add(SCROLL_PAGE);
        } else if code == KeyCode::Char('u') && ctrl {
            self.preview_scroll = self.preview_scroll.saturating_sub(SCROLL_HALF);
        } else if code == KeyCode::Char('d') && ctrl {
            self.preview_scroll = self.preview_scroll.saturating_add(SCROLL_HALF);
        } else if code == KeyCode::Char('/') && self.tab == Tab::Scripts {
            self.mode = if self.mode == InputMode::Search {
                InputMode::Normal
            } else {
                InputMode::Search
            };
        } else if code == KeyCode::Char('t') && self.tab == Tab::Scripts {
            self.enter_tags();
        }
        Outcome::Continue
    }

    /// Handles a key press (`ctrl`: the Control modifier was held).
    pub fn handle_key(&mut self, code: KeyCode, ctrl: bool) -> (r: Outcome)
        requires
            wf(old(self)@),
        ensures
            old(self)@.mode == InputMode::Search ==> search_key(old(self)@, code, final(self)@)
                && r is Continue,
            old(self)@.mode == InputMode::Normal ==> normal_key(
                old(self)@,
                code,
                ctrl,
                final(self)@,
                outcome_view(r),
            ),
            wf(final(self)@),
    {
        match self.mode {
            InputMode::Search => {
                self.handle_search_key(code);
                Outcome::Continue
            },
            InputMode::Normal => self.handle_normal_key(code, ctrl),
        }
    }
}

// ── Construction ─────────────────────────────────────────────

/// The state the picker starts in for `scripts` and `history`: the scripts
/// tab, every script listed in order, the first row of each list selected.
pub open spec fn initial(v: AppView, scripts: Seq<Script>, history: Seq<HistoryEntry>, dry_run: bool) -> bool {
    &&& v.scripts == scripts
    &&& v.filtered == Seq::new(scripts.len(), |i: int| (i as usize, 0i32))
    &&& v.tab == Tab::Scripts
    &&& v.list_sel == if scripts.len() > 0 { Some(0usize) } else { None }
    &&& v.preview_scroll == 0
    &&& v.mode == InputMode::Normal
    &&& v.query == Seq::<char>::empty()
    &&& v.tag_filter is None
    &&& strictly_sorted(v.tag_list)
    &&& forall|t: Seq<char>| v.tag_list.contains(t) <==> is_tag_of(scripts, t)
    &&& v.tag_list_sel is None
    &&& !v.tag_pane_right
    &&& v.tag_scripts == Seq::<usize>::empty()
    &&& v.tag_scripts_sel is None
    &&& v.history == history
    &&& v.history_sel == if history.len() > 0 { Some(0usize) } else { None }
    &&& v.status is None
    &&& v.preview is None
    &&& v.dry_run == dry_run
}

impl App {
    /// The picker for `all_scripts` and the run `history`, in the state it
    /// starts in (see `initial`).
    pub fn new(all_scripts: Vec<Script>, history: Vec<HistoryEntry>, config: &Config) -> (r: App)
        ensures
            initial(r@, all_scripts@, history@, config.dry_run),
            wf(r@),
    {
        let tag_list = all_tags(all_scripts.as_slice());
        let n = all_scripts.len();
        let mut filtered: Vec<(usize, i32)> = Vec::new();
        let mut i: usize = 0;
        while i < n
            invariant
                i <= n,
                filtered@ == Seq::new(i as nat, |k: int| (k as usize, 0i32)),
            decreases n - i,
        {
            filtered.push((i, 0));
            i += 1;
            assert(filtered@ =~= Seq::new(i as nat, |k: int| (k as usize, 0i32)));
        }
        let list_sel = if n > 0 { Some(0) } else { None };
        let history_sel = if history.len() > 0 { Some(0) } else { None };
        App {
            all_scripts,
            filtered,
            tab: Tab::Scripts,
            list_sel,
            preview_scroll: 0,
            mode: InputMode::Normal,
            search_query: String::new(),
            tag_filter: None,
            tag_list,
            tag_list_sel: None,
            tag_pane_right: false,
            tag_scripts: Vec::new(),
            tag_scripts_sel: None,
            history,
            history_sel,
            status_msg: None,
            preview_cache: None,
            dry_run: config.dry_run,
        }
    }
}

// ── Preview ──────────────────────────────────────────────────

/// The script whose contents the preview needs, when it does not hold them yet.
pub open spec fn preview_needed(v: AppView) -> Option<usize> {
    match selected_idx(v) {
        Some(si) => match v.preview {
            Some((ci, _c)) => if ci != si {
                Some(si)
            } else {
                None
            },
            None => Some(si),
        },
        None => None,
    }
}

/// The first and one-past-last line of the preview window for `total` lines
/// of which `visible` fit, with the scroll position clamped so that the
/// window is as full as it can be.
pub open spec fn preview_window_spec(scroll: usize, total: usize, visible: usize) -> (usize, usize) {
    let max_scroll = sat_sub(total, visible);
    let start = if scroll < max_scroll { scroll } else { max_scroll };
    let end = if start + visible < total { (start + visible) as usize } else { total };
    (start, end)
}

impl App {
    /// Index of the script to load into the preview, when the preview does
    /// not hold the selected script yet.
    pub fn preview_to_load(&self) -> (r: Option<usize>)
        ensures
            r == preview_needed(self@),
    {
        match self.selected_script_idx() {
            Some(si) => match &self.preview_cache {
                Some((ci, _c)) => if *ci != si {
                    Some(si)
                } else {
                    None
                },
                None => Some(si),
            },
            None => None,
        }
    }

    /// Keeps `contents` as the preview of script `si`.
    pub fn store_preview(&mut self, si: usize, contents: String)
        ensures
            final(self)@ == (AppView { preview: Some((si, contents@)), ..old(self)@ }),
    {
        self.preview_cache = Some((si, contents));
    }

    /// Clamps the preview scroll for `total` lines of which `visible` fit and
    /// returns the window of lines to show.
    pub fn preview_window(&mut self, total: usize, visible: usize) -> (r: (usize, usize))
        ensures
            r == preview_window_spec(old(self)@.preview_scroll, total, visible),
            final(self)@ == (AppView { preview_scroll: r.0, ..old(self)@ }),
    {
        let max_scroll = total.saturating_sub(visible);
        if self.preview_scroll > max_scroll {
            self.preview_scroll = max_scroll;
        }
        let start = self.preview_scroll;
        let end = if total > visible {
            start + visible
        } else {
            total
        };
        (start, end)
    }

    /// What the preview panel shows when `visible` lines fit: the preview's
    /// lines in the window (see `preview_window`), each cut into highlighted
    /// spans, and how many lines the preview has in all (a scrollbar is
    /// owed when that is more than `visible`). The scroll position is
    /// clamped as `preview_window` does it. With no preview held, nothing.
    pub fn preview_view(&mut self, visible: usize) -> (r: Option<
        (Vec<Vec<(String, ShellKind)>>, usize),
    >)
        ensures
            old(self)@.preview is None ==> r is None && final(self)@ == old(self)@,
            old(self)@.preview matches Some((_, c)) ==> {
                let ls = lines(c);
                let w = preview_window_spec(old(self)@.preview_scroll, ls.len() as usize, visible);
                &&& r matches Some((rows, total)) && {
                    &&& total == ls.len()
                    &&& rows@.len() == w.1 - w.0
                    &&& forall|i: int|
                        0 <= i < rows@.len() ==> span_views(#[trigger] rows@[i]@) == shell_spans(
                            ls[w.0 + i],
                        )
                }
                &&& final(self)@ == (AppView { preview_scroll: w.0, ..old(self)@ })
            },
    {
        let all: Vec<Vec<char>> = match &self.preview_cache {
            None => {
                return None;
            },
            Some((_, c)) => lines_of(&chars_of(c.as_str())),
        };
        let ghost ls = match self@.preview {
            Some((_, c)) => lines(c),
            None => Seq::empty(),
        };
        assert(all@.len() == ls.len());
        let total = all.len();
        let (start, end) = self.preview_window(total, visible);
        let mut rows: Vec<Vec<(String, ShellKind)>> = Vec::new();
        let mut k: usize = start;
        while k < end
            invariant
                start <= k <= end <= total == all@.len() == ls.len(),
                all@.map_values(|l: Vec<char>| l@) == ls,
                rows@.len() == k - start,
                forall|i: int|
                    0 <= i < rows@.len() ==> span_views(#[trigger] rows@[i]@) == shell_spans(
                        ls[start + i],
                    ),
            decreases end - k,
        {
            let spans = shell_spans_chars(&all[k]);
            assert(all@[k as int]@ == ls[k as int]);
            rows.push(spans);
            k += 1;
        }
        Some((rows, total))
    }

    /// How many entries the tag list shows for `tag`: the scripts carrying
    /// it, counted once per occurrence.
    pub fn tag_script_count(&self, tag: &str) -> (r: usize)
        ensures
            r == tag_occ(self@.scripts, tag@).len(),
    {
        let t = chars_of(tag);
        self.scripts_with_tag(&t).len()
    }

    /// The script indices listed under the tag `t` (see `tag_occ`).
    fn scripts_with_tag(&self, t: &Vec<char>) -> (r: Vec<usize>)
        ensures
            r@ == tag_occ(self@.scripts, t@),
    {
        let ghost v = self@;
        let mut ts: Vec<usize> = Vec::new();
        let mut i: usize = 0;
        while i < self.all_scripts.len()
            invariant
                i <= self.all_scripts.len(),
                self@ == v,
                ts@ == tag_occ(v.scripts.take(i as int), t@),
            decreases self.all_scripts.len() - i,
        {
            let tags = &self.all_scripts[i].tags;
            let ghost start = ts@;
            let mut j: usize = 0;
            while j < tags.len()
                invariant
                    i < self.all_scripts.len(),
                    tags == self.all_scripts@[i as int].tags,
                    j <= tags.len(),
                    ts@ == start + Seq::new(tag_count_in(tags@.take(j as int), t@), |_k: int| i),
                decreases tags.len() - j,
            {
                assert(tags@.take(j + 1).drop_last() =~= tags@.take(j as int));
                if chars_eq(&chars_of(tags[j].as_str()), t) {
                    ts.push(i);
                }
                j += 1;
                assert(ts@ =~= start + Seq::new(tag_count_in(tags@.take(j as int), t@), |_k: int| i));
            }
            assert(tags@.take(tags.len() as int) =~= tags@);
            assert(v.scripts.take(i + 1).drop_last() =~= v.scripts.take(i as int));
            i += 1;
            assert(ts@ =~= tag_occ(v.scripts.take(i as int), t@));
        }
        assert(v.scripts.take(self.all_scripts.len() as int) =~= v.scripts);
        ts
    }
}

// ── Texts shown by the list ──────────────────────────────────

/// What the status line says after the path `path` was handed to the
/// clipboard (`copied`: a clipboard tool took it).
pub fn copy_status(path: &str, copied: bool) -> (r: String)
    ensures
        r@ == if copied {
            "Copied: "@ + path@
        } else {
            "Path: "@ + path@
        },
{
    let mut msg = if copied {
        String::from_str("Copied: ")
    } else {
        String::from_str("Path: ")
    };
    msg.append(path);
    msg
}

/// `s` padded on the left with spaces to at least `width` characters.
pub open spec fn pad_left(s: Seq<char>, width: nat) -> Seq<char> {
    if s.len() >= width {
        s
    } else {
        Seq::new((width - s.len()) as nat, |_i: int| ' ') + s
    }
}

/// The label in front of row `pos` of the scripts list: the 1-based row
/// number right-aligned in three columns, then two spaces.
pub fn row_label(pos: usize) -> (r: String)
    requires
        pos < usize::MAX,
    ensures
        r@ == pad_left(decimal((pos + 1) as nat), 3) + seq![' ', ' '],
{
    let digits = decimal_chars((pos + 1) as u64);
    let mut out: Vec<char> = Vec::new();
    let mut k: usize = digits.len();
    while k < 3
        invariant
            digits.len() <= k,
            k <= 3 || k == digits.len(),
            out@ == Seq::new((k - digits.len()) as nat, |_i: int| ' '),
        decreases 3 - k,
    {
        out.push(' ');
        k += 1;
        assert(out@ =~= Seq::new((k - digits.len()) as nat, |_i: int| ' '));
    }
    let mut j: usize = 0;
    let ghost pad = out@;
    while j < digits.len()
        invariant
            j <= digits.len(),
            out@ == pad + digits@.take(j as int),
        decreases digits.len() - j,
    {
        out.push(digits[j]);
        j += 1;
        assert(out@ =~= pad + digits@.take(j as int));
    }
    assert(digits@.take(digits.len() as int) =~= digits@);
    out.push(' ');
    out.push(' ');
    assert(out@ =~= pad_left(decimal((pos + 1) as nat), 3) + seq![' ', ' ']);
    string_of(&out)
}

/// Pieces of a row's text for highlighting: `(text, highlighted)`.
pub struct RunsState {
    pub runs: Seq<(Seq<char>, bool)>,
    pub buf: Seq<char>,
    pub next: int,
}

/// The pieces after the first `n` characters of `text`: a character at the
/// next matched position becomes a highlighted piece of its own (after the
/// plain text gathered so far); other characters gather into plain pieces.
pub open spec fn runs_after(text: Seq<char>, positions: Seq<usize>, n: int) -> RunsState
    decreases n,
{
    if n <= 0 {
        RunsState { runs: Seq::empty(), buf: Seq::empty(), next: 0 }
    } else {
        let st = runs_after(text, positions, n - 1);
        let c = text[n - 1];
        if 0 <= st.next < positions.len() && positions[st.next] == n - 1 {
            let runs = if st.buf.len() > 0 {
                st.runs.push((st.buf, false))
            } else {
                st.runs
            };
            RunsState { runs: runs.push((seq![c], true)), buf: Seq::empty(), next: st.next + 1 }
        } else {
            RunsState { runs: st.runs, buf: st.buf.push(c), next: st.next }
        }
    }
}

/// All pieces of `text`, the trailing plain text included.
pub open spec fn highlight_spec(text: Seq<char>, positions: Seq<usize>) -> Seq<(Seq<char>, bool)> {
    let st = runs_after(text, positions, text.len() as int);
    if st.buf.len() > 0 {
        st.runs.push((st.buf, false))
    } else {
        st.runs
    }
}

/// The pieces of a row's text `text`, with the characters at the matched
/// `positions` (increasing) highlighted.
pub fn highlight_runs(text: &str, positions: &Vec<usize>) -> (r: Vec<(String, bool)>)
    ensures
        r@.map_values(|p: (String, bool)| (p.0@, p.1)) == highlight_spec(text@, positions@),
{
    let chars = chars_of(text);
    let mut runs: Vec<(String, bool)> = Vec::new();
    let mut buf: Vec<char> = Vec::new();
    let mut next: usize = 0;
    let mut i: usize = 0;
    while i < chars.len()
        invariant
            i <= chars.len(),
            chars@ == text@,
            next <= positions.len(),
            ({
                let st = runs_after(text@, positions@, i as int);
                &&& runs@.map_values(|p: (String, bool)| (p.0@, p.1)) == st.runs
                &&& buf@ == st.buf
                &&& next as int == st.next
            }),
        decreases chars.len() - i,
    {
        let c = chars[i];
        if next < positions.len() && positions[next] == i {
            if buf.len() > 0 {
                let ghost before = runs@.map_values(|p: (String, bool)| (p.0@, p.1));
                let piece = string_of(&buf);
                runs.push((piece, false));
                assert(runs@.map_values(|p: (String, bool)| (p.0@, p.1)) =~= before.push((buf@, false)));
                buf = Vec::new();
            }
            let ghost before = runs@.map_values(|p: (String, bool)| (p.0@, p.1));
            let one = vec![c];
            let piece = string_of(&one);
            assert(one@ =~= seq![c]);
            runs.push((piece, true));
            assert(runs@.map_values(|p: (String, bool)| (p.0@, p.1)) =~= before.push((seq![c], true)));
            next += 1;
        } else {
            buf.push(c);
        }
        i += 1;
    }
    if buf.len() > 0 {
        let ghost before = runs@.map_values(|p: (String, bool)| (p.0@, p.1));
        let piece = string_of(&buf);
        runs.push((piece, false));
        assert(runs@.map_values(|p: (String, bool)| (p.0@, p.1)) =~= before.push((buf@, false)));
    }
    runs
}

proof fn lemma_first_named_script(scripts: Seq<Script>, n: Seq<char>, w: int)
    requires
        0 <= w < scripts.len(),
        scripts[w].name@ == n,
    ensures
        exists|i: int|
            0 <= i < scripts.len() && scripts[i].name@ == n && forall|j: int|
                0 <= j < i ==> scripts[j].name@ != n,
    decreases w,
{
    if exists|j: int| 0 <= j < w && scripts[j].name@ == n {
        let j = choose|j: int| 0 <= j < w && scripts[j].name@ == n;
        lemma_first_named_script(scripts, n, j);
    }
}

proof fn lemma_tag_occ_bounded(scripts: Seq<Script>, t: Seq<char>)
    ensures
        forall|k: int| 0 <= k < tag_occ(scripts, t).len() ==> #[trigger] tag_occ(scripts, t)[k] < scripts.len(),
    decreases scripts.len(),
{
    if scripts.len() > 0 {
        lemma_tag_occ_bounded(scripts.drop_last(), t);
        let prev = tag_occ(scripts.drop_last(), t);
        let all = tag_occ(scripts, t);
        assert forall|k: int| 0 <= k < all.len() implies #[trigger] all[k] < scripts.len() by {
            if k < prev.len() {
                assert(all[k] == prev[k]);
            }
        }
    }
}

// ── Key hints ────────────────────────────────────────────────

/// The characters of each (key, action) hint.
pub open spec fn hint_views(h: Seq<(&str, &str)>) -> Seq<(Seq<char>, Seq<char>)> {
    h.map_values(|p: (&str, &str)| (p.0@, p.1@))
}

/// The key hints the footer shows in tab `tab` and input mode `mode`: those
/// of the search box while searching, else those of the tab.
pub open spec fn key_hints_spec(tab: Tab, mode: InputMode) -> Seq<(Seq<char>, Seq<char>)> {
    if mode == InputMode::Search {
        seq![("esc"@, "cancel"@), ("enter"@, "confirm"@), ("↑↓"@, "navigate"@)]
    } else {
        match tab {
            Tab::Scripts => seq![
                ("↑↓/jk"@, "navigate"@),
                ("enter/r"@, "run"@),
                ("e"@, "edit"@),
                ("/"@, "search"@),
                ("t"@, "tags"@),
                ("y"@, "copy path"@),
                ("tab"@, "history"@),
                ("q"@, "quit"@),
            ],
            Tab::History => seq![
                ("↑↓/jk"@, "navigate"@),
                ("enter"@, "run"@),
                ("tab"@, "tags"@),
                ("q"@, "quit"@),
            ],
            Tab::Tags => seq![
                ("↑↓/jk"@, "navigate"@),
                ("←→/hl"@, "switch pane"@),
                ("enter"@, "run/filter"@),
                ("T"@, "clear filter"@),
                ("tab"@, "scripts"@),
                ("q"@, "quit"@),
            ],
        }
    }
}

/// The key hints for tab `tab` in input mode `mode` (see `key_hints_spec`),
/// as (key, action) pairs in the order they are shown.
pub fn key_hints(tab: Tab, mode: InputMode) -> (r: Vec<(&'static str, &'static str)>)
    ensures
        hint_views(r@) == key_hints_spec(tab, mode),
{
    let r = if mode == InputMode::Search {
        vec![("esc", "cancel"), ("enter", "confirm"), ("↑↓", "navigate")]
    } else {
        match tab {
            Tab::Scripts => vec![
                ("↑↓/jk", "navigate"),
                ("enter/r", "run"),
                ("e", "edit"),
                ("/", "search"),
                ("t", "tags"),
                ("y", "copy path"),
                ("tab", "history"),
                ("q", "quit"),
            ],
            Tab::History => vec![
                ("↑↓/jk", "navigate"),
                ("enter", "run"),
                ("tab", "tags"),
                ("q", "quit"),
            ],
            Tab::Tags => vec![
                ("↑↓/jk", "navigate"),
                ("←→/hl", "switch pane"),
                ("enter", "run/filter"),
                ("T", "clear filter"),
                ("tab", "scripts"),
                ("q", "quit"),
            ],
        }
    };
    assert(hint_views(r@) =~= key_hints_spec(tab, mode));
    r
}

// ── Laws ─────────────────────────────────────────────────────

proof fn lemma_sorted_rank_unique(a: Seq<(usize, i32)>, b: Seq<(usize, i32)>)
    requires
        sorted_by_rank(a),
        sorted_by_rank(b),
        forall|x: (usize, i32)| a.contains(x) <==> b.contains(x),
    ensures
        a == b,
    decreases a.len(),
{
    if a.len() == 0 {
        if b.len() > 0 {
            assert(b.contains(b[0]));
        }
        assert(a =~= b);
    } else {
        assert(a.contains(a[0]));
        assert(b.len() > 0);
        assert(b.contains(b[0]));
        let j = choose|j: int| 0 <= j < b.len() && b[j] == a[0];
        let i = choose|i: int| 0 <= i < a.len() && a[i] == b[0];
        if j > 0 && i > 0 {
            assert(ranks_before(b[0], b[j]));
            assert(ranks_before(a[0], a[i]));
            assert(false);
        }
        if j > 0 && i == 0 {
            assert(b[0] == a[0]);
            assert(ranks_before(b[0], b[j]));
            assert(false);
        }
        assert(a[0] == b[0]);
        let a2 = a.drop_first();
        let b2 = b.drop_first();
        assert forall|x: (usize, i32)| a2.contains(x) <==> b2.contains(x) by {
            if a2.contains(x) {
                let k = choose|k: int| 0 <= k < a2.len() && a2[k] == x;
                assert(a[k + 1] == x);
                assert(ranks_before(a[0], a[k + 1]));
                assert(a.contains(x));
                assert(b.contains(x));
                let m = choose|m: int| 0 <= m < b.len() && b[m] == x;
                assert(m != 0);
                assert(b2[m - 1] == x);
            }
            if b2.contains(x) {
                let k = choose|k: int| 0 <= k < b2.len() && b2[k] == x;
                assert(b[k + 1] == x);
                assert(ranks_before(b[0], b[k + 1]));
                assert(b.contains(x));
                assert(a.contains(x));
                let m = choose|m: int| 0 <= m < a.len() && a[m] == x;
                assert(m != 0);
                assert(a2[m - 1] == x);
            }
        }
        assert forall|k: int, l: int| 0 <= k < l < a2.len() implies ranks_before(a2[k], a2[l]) by {
            assert(a2[k] == a[k + 1] && a2[l] == a[l + 1]);
        }
        assert forall|k: int, l: int| 0 <= k < l < b2.len() implies ranks_before(b2[k], b2[l]) by {
            assert(b2[k] == b[k + 1] && b2[l] == b[l + 1]);
        }
        lemma_sorted_rank_unique(a2, b2);
        assert(a =~= seq![a[0]] + a2);
        assert(b =~= seq![b[0]] + b2);
    }
}

/// There is only one ranking of the scripts for a query and tag filter.
pub proof fn lemma_ranking_unique(
    scripts: Seq<Script>,
    query: Seq<char>,
    tag_filter: Option<Seq<char>>,
    a: Seq<(usize, i32)>,
    b: Seq<(usize, i32)>,
)
    requires
        ranked_ok(scripts, query, tag_filter, a),
        ranked_ok(scripts, query, tag_filter, b),
    ensures
        a == b,
{
    assert forall|x: (usize, i32)| a.contains(x) implies b.contains(x) by {
        let k = choose|k: int| 0 <= k < a.len() && a[k] == x;
        assert(item_score(query, scripts[x.0 as int]) is Some);
        let m = choose|m: int| 0 <= m < b.len() && b[m].0 == x.0;
        assert(b[m] == x);
    }
    assert forall|x: (usize, i32)| b.contains(x) implies a.contains(x) by {
        let k = choose|k: int| 0 <= k < b.len() && b[k] == x;
        assert(item_score(query, scripts[x.0 as int]) is Some);
        let m = choose|m: int| 0 <= m < a.len() && a[m].0 == x.0;
        assert(a[m] == x);
    }
    lemma_sorted_rank_unique(a, b);
}

/// Typing a character into the search box and deleting it again restores
/// the query and, when the list matched the query before, the same list
/// (with the first row selected and the preview reset).
pub proof fn lemma_type_then_backspace(v: AppView, w: AppView, u: AppView, c: char)
    requires
        c != '/',
        ranked_ok(v.scripts, v.query, v.tag_filter, v.filtered),
        search_key(v, KeyCode::Char(c), w),
        search_key(w, KeyCode::Backspace, u),
    ensures
        u == (AppView {
            list_sel: if v.filtered.len() == 0 {
                None
            } else {
                Some(0usize)
            },
            preview_scroll: 0,
            preview: None,
            ..v
        }),
{
    assert(w.query == v.query.push(c));
    assert(w.query.drop_last() =~= v.query);
    assert(u.query == v.query);
    lemma_ranking_unique(v.scripts, v.query, v.tag_filter, u.filtered, v.filtered);
}

/// Before any key press, the list is the ranking for the empty query: every
/// script, in order.
pub proof fn lemma_initial_list_is_ranking(v: AppView, scripts: Seq<Script>, history: Seq<HistoryEntry>, dry_run: bool)
    requires
        initial(v, scripts, history, dry_run),
        scripts.len() <= usize::MAX,
    ensures
        ranked_ok(v.scripts, v.query, v.tag_filter, v.filtered),
{
    assert forall|k: int| 0 <= k < v.filtered.len() implies #[trigger] v.filtered[k] == (k as usize, 0i32) by {}
    assert forall|k: int| 0 <= k < v.filtered.len() implies (#[trigger] v.filtered[k]).0 < v.scripts.len()
        && in_base(v.scripts, v.tag_filter, v.filtered[k].0 as int) && item_score(
        v.query,
        v.scripts[v.filtered[k].0 as int],
    ) == Some(v.filtered[k].1 as int) by {
        crate::fuzzy::lemma_empty_query_scores_zero(v.query, v.scripts[k]);
    }
    assert forall|i: int|
        0 <= i < v.scripts.len() && in_base(v.scripts, v.tag_filter, i) && (#[trigger] item_score(
            v.query,
            v.scripts[i],
        )) is Some implies exists|k: int| 0 <= k < v.filtered.len() && v.filtered[k].0 == i by {
        assert(v.filtered[i].0 == i);
    }
}

/// Every script in order, each with score 0: the ranking for the empty
/// query without a tag filter.
pub open spec fn all_unranked(n: nat) -> Seq<(usize, i32)> {
    Seq::new(n, |i: int| (i as usize, 0i32))
}

proof fn lemma_all_unranked_is_ranking(scripts: Seq<Script>)
    requires
        scripts.len() <= usize::MAX,
    ensures
        ranked_ok(scripts, Seq::<char>::empty(), None, all_unranked(scripts.len())),
{
    let f = all_unranked(scripts.len());
    let q = Seq::<char>::empty();
    assert forall|k: int| 0 <= k < f.len() implies (#[trigger] f[k]).0 < scripts.len() && in_base(
        scripts,
        None,
        f[k].0 as int,
    ) && item_score(q, scripts[f[k].0 as int]) == Some(f[k].1 as int) by {
        crate::fuzzy::lemma_empty_query_scores_zero(q, scripts[k]);
    }
    assert forall|i: int|
        0 <= i < scripts.len() && in_base(scripts, None, i) && (#[trigger] item_score(q, scripts[i])) is Some implies exists|
        k: int,
    | 0 <= k < f.len() && f[k].0 == i by {
        assert(f[i].0 == i);
    }
}

/// Esc in normal mode clears the search: afterwards the query is empty and
/// no tag filter is set, and the caller has nothing to do. When there was a
/// query or a filter to clear, every script is listed again, in order with
/// score 0, the first row selected; otherwise nothing changes.
pub proof fn lemma_esc_clears_search(v: AppView, ctrl: bool, post: AppView, out: OutcomeView)
    requires
        v.mode == InputMode::Normal,
        v.scripts.len() <= usize::MAX,
        normal_key(v, KeyCode::Esc, ctrl, post, out),
    ensures
        post.query.len() == 0,
        post.tag_filter is None,
        out == OutcomeView::Continue,
        post.mode == InputMode::Normal,
        v.query.len() > 0 || v.tag_filter is Some ==> post.filtered == all_unranked(v.scripts.len())
            && post.list_sel == (if v.scripts.len() > 0 {
            Some(0usize)
        } else {
            None
        }),
        v.query.len() == 0 && v.tag_filter is None ==> post == v,
{
    if v.query.len() > 0 || v.tag_filter is Some {
        lemma_all_unranked_is_ranking(v.scripts);
        lemma_ranking_unique(
            v.scripts,
            Seq::<char>::empty(),
            None,
            post.filtered,
            all_unranked(v.scripts.len()),
        );
    } else {
        assert(v.query =~= Seq::<char>::empty());
    }
}

/// In normal mode `g` does what Home does: both jump to the first row of
/// the focused list (when it has rows) and ask nothing of the caller.
pub proof fn lemma_g_is_home(
    v: AppView,
    c1: bool,
    p1: AppView,
    o1: OutcomeView,
    c2: bool,
    p2: AppView,
    o2: OutcomeView,
)
    requires
        v.mode == InputMode::Normal,
        normal_key(v, KeyCode::Char('g'), c1, p1, o1),
        normal_key(v, KeyCode::Home, c2, p2, o2),
    ensures
        p1 == p2,
        o1 == o2,
        o1 == OutcomeView::Continue,
        list_len(v) > 0 ==> active_sel(p1) == Some(0usize),
        p1.tab == v.tab,
{
}

/// A Tab (or Shift-Tab) press in normal mode moves to the next tab of the
/// cycle Scripts, History, Tags, asks nothing of the caller, scrolls the
/// preview to the top and stays in normal mode. Arriving at Tags focuses the
/// tag list and hovers its first tag when none was hovered; leaving for any
/// other tab changes nothing else.
pub proof fn lemma_tab_step(v: AppView, code: KeyCode, ctrl: bool, post: AppView, out: OutcomeView)
    requires
        v.mode == InputMode::Normal,
        code == KeyCode::Tab || code == KeyCode::BackTab,
        normal_key(v, code, ctrl, post, out),
    ensures
        post.tab == next_tab(v.tab),
        out == OutcomeView::Continue,
        post.preview_scroll == 0,
        post.mode == InputMode::Normal,
        post.tab == Tab::Tags ==> !post.tag_pane_right,
        post.tab == Tab::Tags && v.tag_list_sel is None && v.tag_list.len() > 0 ==> post.tag_list_sel
            == Some(0usize),
        post.tab != Tab::Tags ==> post == (AppView { tab: post.tab, preview_scroll: 0, ..v }),
{
}

/// Three Tab (or Shift-Tab) presses in normal mode come back to the tab
/// they started on.
pub proof fn lemma_tab_cycle(
    v0: AppView,
    k1: KeyCode,
    c1: bool,
    v1: AppView,
    o1: OutcomeView,
    k2: KeyCode,
    c2: bool,
    v2: AppView,
    o2: OutcomeView,
    k3: KeyCode,
    c3: bool,
    v3: AppView,
    o3: OutcomeView,
)
    requires
        v0.mode == InputMode::Normal,
        k1 == KeyCode::Tab || k1 == KeyCode::BackTab,
        k2 == KeyCode::Tab || k2 == KeyCode::BackTab,
        k3 == KeyCode::Tab || k3 == KeyCode::BackTab,
        normal_key(v0, k1, c1, v1, o1),
        normal_key(v1, k2, c2, v2, o2),
        normal_key(v2, k3, c3, v3, o3),
    ensures
        v3.tab == v0.tab,
{
    lemma_tab_step(v0, k1, c1, v1, o1);
    lemma_tab_step(v1, k2, c2, v2, o2);
    lemma_tab_step(v2, k3, c3, v3, o3);
}

} // verus!
