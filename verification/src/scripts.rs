//! Discovered shell scripts: header parsing, shadowing across search
//! directories, lookup by name and the set of tags.
use vstd::prelude::*;
use crate::text::{
    chars_of, string_of, sub_chars, chars_eq, starts_with, lower_of, trimmed, split_chars,
    lines_of, lowercase, trim, split_on, lines, seq_lt, chars_lt, lemma_seq_lt_total,
    lemma_seq_lt_transitive, string_views,
};

verus! {

/// A discovered shell script.
#[derive(Debug, Clone)]
pub struct Script {
    /// File name without the `.sh` extension, e.g. "backup_home".
    pub name: String,
    /// Full path on disk.
    pub path: String,
    /// First plain comment line of the header, used as description.
    pub description: String,
    /// Tags parsed from `# @tags: foo, bar` (or `# @tag: foo`) lines.
    pub tags: Vec<String>,
    /// Info block: `# @info: text` lines and `# @info` blocks, joined by newlines.
    pub info: String,
}

/// How many lines of a script the header scan looks at.
pub const HEADER_LINES: usize = 40;

// ── Header parsing: the specification ────────────────────────

/// What the header scan has gathered so far.
pub struct HeaderState {
    pub description: Seq<char>,
    pub tags: Seq<Seq<char>>,
    pub info_lines: Seq<Seq<char>>,
    pub in_info: bool,
}

pub open spec fn tags_directive() -> Seq<char> {
    seq!['@', 't', 'a', 'g', 's', ':']
}

pub open spec fn tag_directive() -> Seq<char> {
    seq!['@', 't', 'a', 'g', ':']
}

pub open spec fn info_directive() -> Seq<char> {
    seq!['@', 'i', 'n', 'f', 'o', ':']
}

pub open spec fn info_sentinel() -> Seq<char> {
    seq!['@', 'i', 'n', 'f', 'o']
}

pub open spec fn shebang() -> Seq<char> {
    seq!['#', '!']
}

/// The tags of the comma-separated pieces: each trimmed and lowercased,
/// empty ones dropped.
pub open spec fn tags_of_pieces(pieces: Seq<Seq<char>>) -> Seq<Seq<char>>
    decreases pieces.len(),
{
    if pieces.len() == 0 {
        Seq::<Seq<char>>::empty()
    } else {
        let prev = tags_of_pieces(pieces.drop_last());
        let t = lowercase(trim(pieces.last()));
        if t.len() > 0 {
            prev.push(t)
        } else {
            prev
        }
    }
}

/// The tags listed after a `@tags:` or `@tag:` directive.
pub open spec fn tag_list(tag_str: Seq<char>) -> Seq<Seq<char>> {
    tags_of_pieces(split_on(tag_str, ','))
}

/// The state after the comment text `rest` (already trimmed, without `#`).
pub open spec fn comment_step(st: HeaderState, rest: Seq<char>) -> HeaderState {
    if tags_directive().is_prefix_of(rest) {
        HeaderState { tags: st.tags + tag_list(rest.skip(6)), in_info: false, ..st }
    } else if tag_directive().is_prefix_of(rest) {
        HeaderState { tags: st.tags + tag_list(rest.skip(5)), in_info: false, ..st }
    } else if info_directive().is_prefix_of(rest) {
        let text = trim(rest.skip(6));
        HeaderState {
            info_lines: if text.len() > 0 {
                st.info_lines.push(text)
            } else {
                st.info_lines
            },
            in_info: false,
            ..st
        }
    } else if rest == info_sentinel() {
        HeaderState { in_info: true, ..st }
    } else if st.in_info {
        HeaderState { info_lines: st.info_lines.push(rest), ..st }
    } else if st.description.len() == 0 && rest.len() > 0 && rest[0] != '@' {
        HeaderState { description: rest, ..st }
    } else {
        st
    }
}

/// The state after one header line.
pub open spec fn header_step(st: HeaderState, line: Seq<char>) -> HeaderState {
    let tr = trim(line);
    if shebang().is_prefix_of(tr) {
        HeaderState { in_info: false, ..st }
    } else if tr.len() > 0 && tr[0] == '#' {
        comment_step(st, trim(tr.drop_first()))
    } else {
        HeaderState { in_info: false, ..st }
    }
}

/// The state after the lines `ls`, scanned in order from an empty state.
pub open spec fn header_scan(ls: Seq<Seq<char>>) -> HeaderState
    decreases ls.len(),
{
    if ls.len() == 0 {
        HeaderState {
            description: Seq::<char>::empty(),
            tags: Seq::<Seq<char>>::empty(),
            info_lines: Seq::<Seq<char>>::empty(),
            in_info: false,
        }
    } else {
        header_step(header_scan(ls.drop_last()), ls.last())
    }
}

/// Lines joined with `\n` between them.
pub open spec fn join_lines(ls: Seq<Seq<char>>) -> Seq<char>
    decreases ls.len(),
{
    if ls.len() == 0 {
        Seq::<char>::empty()
    } else if ls.len() == 1 {
        ls[0]
    } else {
        join_lines(ls.drop_last()) + seq!['\n'] + ls.last()
    }
}

/// The first `HEADER_LINES` lines of `content`.
pub open spec fn header_lines(content: Seq<char>) -> Seq<Seq<char>> {
    let ls = lines(content);
    if ls.len() > HEADER_LINES {
        ls.take(HEADER_LINES as int)
    } else {
        ls
    }
}

/// Description, tags and info that the header of `content` declares.
pub open spec fn parse_header_spec(content: Seq<char>) -> (Seq<char>, Seq<Seq<char>>, Seq<char>) {
    let st = header_scan(header_lines(content));
    (st.description, st.tags, join_lines(st.info_lines))
}

/// The views of a list of character vectors.
pub open spec fn char_views(v: Seq<Vec<char>>) -> Seq<Seq<char>> {
    v.map_values(|s: Vec<char>| s@)
}

proof fn lemma_tags_of_pieces_nonempty(pieces: Seq<Seq<char>>)
    ensures
        forall|k: int| 0 <= k < tags_of_pieces(pieces).len() ==> (#[trigger] tags_of_pieces(pieces)[k]).len() > 0,
    decreases pieces.len(),
{
    if pieces.len() > 0 {
        lemma_tags_of_pieces_nonempty(pieces.drop_last());
        let prev = tags_of_pieces(pieces.drop_last());
        let all = tags_of_pieces(pieces);
        assert forall|k: int| 0 <= k < all.len() implies (#[trigger] all[k]).len() > 0 by {
            if k < prev.len() {
                assert(all[k] == prev[k]);
            }
        }
    }
}

proof fn lemma_scan_tags_nonempty(ls: Seq<Seq<char>>)
    ensures
        forall|k: int| 0 <= k < header_scan(ls).tags.len() ==> (#[trigger] header_scan(ls).tags[k]).len() > 0,
    decreases ls.len(),
{
    if ls.len() > 0 {
        lemma_scan_tags_nonempty(ls.drop_last());
        let st = header_scan(ls.drop_last());
        let tr = trim(ls.last());
        let rest = trim(tr.drop_first());
        lemma_tags_of_pieces_nonempty(split_on(rest.skip(6), ','));
        lemma_tags_of_pieces_nonempty(split_on(rest.skip(5), ','));
        let post = header_scan(ls);
        assert forall|k: int| 0 <= k < post.tags.len() implies (#[trigger] post.tags[k]).len() > 0 by {
            if k >= st.tags.len() {
                if tags_directive().is_prefix_of(rest) {
                    assert(post.tags[k] == tag_list(rest.skip(6))[k - st.tags.len()]);
                } else {
                    assert(post.tags[k] == tag_list(rest.skip(5))[k - st.tags.len()]);
                }
            } else {
                assert(post.tags[k] == st.tags[k]);
            }
        }
    }
}

/// No tag read from a header is empty.
pub proof fn lemma_header_tags_nonempty(content: Seq<char>)
    ensures
        forall|k: int|
            0 <= k < parse_header_spec(content).1.len() ==> (#[trigger] parse_header_spec(content).1[k]).len()
                > 0,
{
    lemma_scan_tags_nonempty(header_lines(content));
}

proof fn lemma_step_keeps_description(st: HeaderState, line: Seq<char>)
    requires
        st.description.len() > 0,
    ensures
        header_step(st, line).description == st.description,
{
}

proof fn lemma_scan_keeps_description(ls: Seq<Seq<char>>, k: int)
    requires
        0 <= k <= ls.len(),
        header_scan(ls.take(k)).description.len() > 0,
    ensures
        header_scan(ls).description == header_scan(ls.take(k)).description,
    decreases ls.len() - k,
{
    if k == ls.len() {
        assert(ls.take(k) =~= ls);
    } else {
        let d = ls.drop_last();
        assert(d.take(k) =~= ls.take(k));
        lemma_scan_keeps_description(d, k);
        lemma_step_keeps_description(header_scan(d), ls.last());
    }
}

/// The text of a `# ...` comment line: without the `#` and trimmed.
pub open spec fn comment_text(line: Seq<char>) -> Seq<char> {
    trim(trim(line).drop_first())
}

proof fn lemma_scan_description_from_comment(ls: Seq<Seq<char>>)
    ensures
        header_scan(ls).description.len() > 0 ==> exists|i: int|
            0 <= i < ls.len() && trim(ls[i]).len() > 0 && trim(ls[i])[0] == '#'
                && #[trigger] comment_text(ls[i]) == header_scan(ls).description,
    decreases ls.len(),
{
    if ls.len() > 0 {
        let d = ls.drop_last();
        lemma_scan_description_from_comment(d);
        if header_scan(d).description.len() > 0 {
            lemma_step_keeps_description(header_scan(d), ls.last());
            let i = choose|i: int|
                0 <= i < d.len() && trim(d[i]).len() > 0 && trim(d[i])[0] == '#'
                    && #[trigger] comment_text(d[i]) == header_scan(d).description;
            assert(ls[i] == d[i]);
        } else if header_scan(ls).description.len() > 0 {
            assert(comment_text(ls[ls.len() - 1]) == header_scan(ls).description);
        }
    }
}

/// A plain comment line: `# text` (not `#!`) whose text is non-empty and
/// does not start with `@` (so it is no directive).
pub open spec fn is_plain_comment(line: Seq<char>) -> bool {
    &&& trim(line).len() > 0
    &&& trim(line)[0] == '#'
    &&& !shebang().is_prefix_of(trim(line))
    &&& comment_text(line).len() > 0
    &&& comment_text(line)[0] != '@'
}

/// A line that opens an info block: `# @info` on its own.
pub open spec fn opens_info(line: Seq<char>) -> bool {
    &&& trim(line).len() > 0
    &&& trim(line)[0] == '#'
    &&& !shebang().is_prefix_of(trim(line))
    &&& comment_text(line) == info_sentinel()
}

proof fn lemma_scan_before_plain(ls: Seq<Seq<char>>, i: int)
    requires
        0 <= i <= ls.len(),
        forall|j: int| 0 <= j < i ==> !is_plain_comment(#[trigger] ls[j]) && !opens_info(ls[j]),
    ensures
        header_scan(ls.take(i)).description.len() == 0,
        !header_scan(ls.take(i)).in_info,
    decreases i,
{
    if i > 0 {
        assert(ls.take(i).drop_last() =~= ls.take(i - 1));
        assert(ls.take(i).last() == ls[i - 1]);
        lemma_scan_before_plain(ls, i - 1);
        assert(!is_plain_comment(ls[i - 1]) && !opens_info(ls[i - 1]));
    }
}

/// The description is the earliest plain comment line of the header, when
/// no `# @info` block was opened before it.
pub proof fn lemma_description_is_earliest_plain_comment(content: Seq<char>, i: int)
    requires
        0 <= i < header_lines(content).len(),
        is_plain_comment(header_lines(content)[i]),
        forall|j: int|
            0 <= j < i ==> !is_plain_comment(#[trigger] header_lines(content)[j]) && !opens_info(
                header_lines(content)[j],
            ),
    ensures
        parse_header_spec(content).0 == comment_text(header_lines(content)[i]),
{
    let hl = header_lines(content);
    lemma_scan_before_plain(hl, i);
    assert(hl.take(i + 1).drop_last() =~= hl.take(i));
    assert(hl.take(i + 1).last() == hl[i]);
    let rest = comment_text(hl[i]);
    assert(!tags_directive().is_prefix_of(rest)) by {
        if tags_directive().is_prefix_of(rest) {
            assert(rest[0] == tags_directive()[0]);
        }
    }
    assert(!tag_directive().is_prefix_of(rest)) by {
        if tag_directive().is_prefix_of(rest) {
            assert(rest[0] == tag_directive()[0]);
        }
    }
    assert(!info_directive().is_prefix_of(rest)) by {
        if info_directive().is_prefix_of(rest) {
            assert(rest[0] == info_directive()[0]);
        }
    }
    assert(rest != info_sentinel()) by {
        if rest == info_sentinel() {
            assert(rest[0] == info_sentinel()[0]);
        }
    }
    assert(header_scan(hl.take(i + 1)).description == rest);
    lemma_scan_keeps_description(hl, i + 1);
}

/// The description is the first plain comment of the header: once the
/// first `k` header lines yield a description, the whole header yields that
/// same description (no later comment replaces it); and a description is
/// always the text of one of the header's `#` comment lines.
pub proof fn lemma_first_description_wins(content: Seq<char>, k: int)
    requires
        0 <= k <= header_lines(content).len(),
    ensures
        header_scan(header_lines(content).take(k)).description.len() > 0 ==> parse_header_spec(content).0
            == header_scan(header_lines(content).take(k)).description,
        parse_header_spec(content).0.len() > 0 ==> exists|i: int|
            0 <= i < header_lines(content).len() && trim(header_lines(content)[i]).len() > 0
                && trim(header_lines(content)[i])[0] == '#' && #[trigger] comment_text(
                header_lines(content)[i],
            ) == parse_header_spec(content).0,
{
    let hl = header_lines(content);
    if header_scan(hl.take(k)).description.len() > 0 {
        lemma_scan_keeps_description(hl, k);
    }
    lemma_scan_description_from_comment(hl);
}

// ── Header parsing: the code ─────────────────────────────────

fn strings_of(v: &Vec<Vec<char>>) -> (r: Vec<String>)
    ensures
        string_views(r@) == char_views(v@),
{
    let mut r: Vec<String> = Vec::new();
    let mut i: usize = 0;
    while i < v.len()
        invariant
            i <= v.len(),
            string_views(r@) == char_views(v@.take(i as int)),
        decreases v.len() - i,
    {
        let ghost before = string_views(r@);
        let s = string_of(&v[i]);
        r.push(s);
        assert(string_views(r@) =~= before.push(v@[i as int]@));
        assert(char_views(v@.take(i + 1)) =~= char_views(v@.take(i as int)).push(v@[i as int]@));
        i += 1;
    }
    assert(v@.take(v.len() as int) =~= v@);
    r
}

fn join_with_newlines(ls: &Vec<Vec<char>>) -> (r: Vec<char>)
    ensures
        r@ == join_lines(char_views(ls@)),
{
    let mut r: Vec<char> = Vec::new();
    let mut i: usize = 0;
    while i < ls.len()
        invariant
            i <= ls.len(),
            r@ == join_lines(char_views(ls@.take(i as int))),
        decreases ls.len() - i,
    {
        let ghost prev = char_views(ls@.take(i as int));
        let ghost cur = char_views(ls@.take(i + 1));
        assert(cur.drop_last() =~= prev);
        assert(cur.last() == ls@[i as int]@);
        if i > 0 {
            r.push('\n');
        }
        let line = &ls[i];
        let mut j: usize = 0;
        let ghost start = r@;
        while j < line.len()
            invariant
                j <= line.len(),
                r@ == start + line@.take(j as int),
            decreases line.len() - j,
        {
            r.push(line[j]);
            j += 1;
            assert(r@ =~= start + line@.take(j as int));
        }
        assert(line@.take(line.len() as int) =~= line@);
        if i == 0 {
            assert(r@ =~= cur[0]);
        }
        i += 1;
    }
    assert(ls@.take(ls.len() as int) =~= ls@);
    r
}

fn tags_directive_exec() -> (r: Vec<char>)
    ensures
        r@ == tags_directive(),
{
    let r = vec!['@', 't', 'a', 'g', 's', ':'];
    assert(r@ =~= tags_directive());
    r
}

fn tag_directive_exec() -> (r: Vec<char>)
    ensures
        r@ == tag_directive(),
{
    let r = vec!['@', 't', 'a', 'g', ':'];
    assert(r@ =~= tag_directive());
    r
}

fn info_directive_exec() -> (r: Vec<char>)
    ensures
        r@ == info_directive(),
{
    let r = vec!['@', 'i', 'n', 'f', 'o', ':'];
    assert(r@ =~= info_directive());
    r
}

fn info_sentinel_exec() -> (r: Vec<char>)
    ensures
        r@ == info_sentinel(),
{
    let r = vec!['@', 'i', 'n', 'f', 'o'];
    assert(r@ =~= info_sentinel());
    r
}

/// The tags of a directive's argument (see `tag_list`), appended to `tags`.
fn push_tags(tags: &mut Vec<Vec<char>>, tag_str: &Vec<char>)
    ensures
        char_views(final(tags)@) == char_views(old(tags)@) + tag_list(tag_str@),
{
    let pieces = split_chars(tag_str, ',');
    let ghost ps = split_on(tag_str@, ',');
    let ghost base = char_views(tags@);
    let mut k: usize = 0;
    while k < pieces.len()
        invariant
            k <= pieces.len(),
            char_views(pieces@) == ps,
            char_views(tags@) == base + tags_of_pieces(ps.take(k as int)),
        decreases pieces.len() - k,
    {
        let t = lower_of(&trimmed(&pieces[k]));
        proof {
            assert(ps.take(k + 1).drop_last() =~= ps.take(k as int));
            assert(ps.take(k + 1).last() == pieces@[k as int]@);
        }
        if t.len() > 0 {
            let ghost before = char_views(tags@);
            let ghost tv = t@;
            tags.push(t);
            assert(char_views(tags@) =~= before.push(tv));
        }
        k += 1;
    }
    assert(ps.take(pieces.len() as int) =~= ps);
}

/// Scans up to `HEADER_LINES` lines of `content` for the description (the
/// first plain `# ...` comment), the tags (`# @tags: foo, bar`, `# @tag: foo`)
/// and the info text (`# @info: text`, or a `# @info` line followed by
/// comment lines up to the first non-comment or directive line).
pub fn parse_header(content: &str) -> (r: (String, Vec<String>, String))
    ensures
        r.0@ == parse_header_spec(content@).0,
        string_views(r.1@) == parse_header_spec(content@).1,
        r.2@ == parse_header_spec(content@).2,
{
    let chars = chars_of(content);
    let all = lines_of(&chars);
    let n = if all.len() > HEADER_LINES {
        HEADER_LINES
    } else {
        all.len()
    };
    let ghost hl = header_lines(content@);
    assert(hl =~= char_views(all@).take(n as int));
    let mut description: Vec<char> = Vec::new();
    let mut tags: Vec<Vec<char>> = Vec::new();
    let mut info_lines: Vec<Vec<char>> = Vec::new();
    let mut in_info = false;
    let mut i: usize = 0;
    let tags_d = tags_directive_exec();
    let tag_d = tag_directive_exec();
    let info_d = info_directive_exec();
    let info_s = info_sentinel_exec();
    while i < n
        invariant
            n <= all.len(),
            hl == char_views(all@).take(n as int),
            tags_d@ == tags_directive(),
            tag_d@ == tag_directive(),
            info_d@ == info_directive(),
            info_s@ == info_sentinel(),
            i <= n,
            ({
                let st = header_scan(hl.take(i as int));
                &&& description@ == st.description
                &&& char_views(tags@) == st.tags
                &&& char_views(info_lines@) == st.info_lines
                &&& in_info == st.in_info
            }),
        decreases n - i,
    {
        let ghost st = header_scan(hl.take(i as int));
        proof {
            assert(hl.take(i + 1).drop_last() =~= hl.take(i as int));
            assert(hl.take(i + 1).last() == all@[i as int]@);
        }
        let tr = trimmed(&all[i]);
        if tr.len() >= 2 && tr[0] == '#' && tr[1] == '!' {
            assert(shebang().is_prefix_of(tr@));
            in_info = false;
        } else if tr.len() > 0 && tr[0] == '#' {
            proof {
                if shebang().is_prefix_of(tr@) {
                    assert(tr@[1] == shebang()[1]);
                }
            }
            let rest = trimmed(&sub_chars(&tr, 1, tr.len()));
            assert(tr@.subrange(1, tr@.len() as int) =~= tr@.drop_first());
            if starts_with(&rest, &tags_d) {
                push_tags(&mut tags, &sub_chars(&rest, 6, rest.len()));
                in_info = false;
            } else if starts_with(&rest, &tag_d) {
                push_tags(&mut tags, &sub_chars(&rest, 5, rest.len()));
                in_info = false;
            } else if starts_with(&rest, &info_d) {
                in_info = false;
                let text = trimmed(&sub_chars(&rest, 6, rest.len()));
                if text.len() > 0 {
                    let ghost before = char_views(info_lines@);
                    let ghost tv = text@;
                    info_lines.push(text);
                    assert(char_views(info_lines@) =~= before.push(tv));
                }
            } else if chars_eq(&rest, &info_s) {
                in_info = true;
            } else if in_info {
                let ghost before = char_views(info_lines@);
                let ghost rv = rest@;
                info_lines.push(rest);
                assert(char_views(info_lines@) =~= before.push(rv));
            } else if description.len() == 0 && rest.len() > 0 && rest[0] != '@' {
                description = rest;
            }
        } else {
            proof {
                if shebang().is_prefix_of(tr@) {
                    assert(tr@[0] == shebang()[0]);
                }
            }
            in_info = false;
        }
        i += 1;
    }
    assert(hl.take(n as int) =~= hl);
    let info = join_with_newlines(&info_lines);
    (string_of(&description), strings_of(&tags), string_of(&info))
}

// ── Scripts ──────────────────────────────────────────────────

/// A `.sh` file found in a search directory, as handed over for loading.
#[derive(Debug, Clone)]
pub struct ScriptFile {
    /// File name without the `.sh` extension (empty when it has none).
    pub name: String,
    /// Full path on disk.
    pub path: String,
    /// The file's text, or `None` when it has no name stem or cannot be read.
    pub content: Option<String>,
}

/// `s` is the script loaded from `f`: same name and path, header parsed
/// from the file's text.
pub open spec fn loaded_from(s: Script, f: ScriptFile) -> bool {
    &&& f.content is Some
    &&& s.name@ == f.name@
    &&& s.path@ == f.path@
    &&& s.description@ == parse_header_spec(f.content->0@).0
    &&& string_views(s.tags@) == parse_header_spec(f.content->0@).1
    &&& s.info@ == parse_header_spec(f.content->0@).2
}

/// `s` has the header that `content` declares.
pub open spec fn has_header_of(s: Script, content: Seq<char>) -> bool {
    &&& s.description@ == parse_header_spec(content).0
    &&& string_views(s.tags@) == parse_header_spec(content).1
    &&& s.info@ == parse_header_spec(content).2
}

impl Script {
    /// The script called `name` at `path`, with its header read from `content`.
    pub fn from_contents(name: String, path: String, content: &str) -> (r: Script)
        ensures
            r.name@ == name@,
            r.path@ == path@,
            has_header_of(r, content@),
    {
        let (description, tags, info) = parse_header(content);
        Script { name, path, description, tags, info }
    }

    /// Name formatted for display: hyphens become spaces.
    pub fn display_name(&self) -> (r: String)
        ensures
            r@ == display_name_spec(self.name@),
    {
        let name = chars_of(self.name.as_str());
        let mut out: Vec<char> = Vec::new();
        let mut i: usize = 0;
        while i < name.len()
            invariant
                i <= name.len(),
                out@ == display_name_spec(name@.take(i as int)),
            decreases name.len() - i,
        {
            let c = name[i];
            out.push(if c == '-' { ' ' } else { c });
            i += 1;
            assert(out@ =~= display_name_spec(name@.take(i as int)));
        }
        assert(name@.take(name.len() as int) =~= name@);
        string_of(&out)
    }
}

/// `name` with every `-` replaced by a space.
pub open spec fn display_name_spec(name: Seq<char>) -> Seq<char> {
    name.map_values(|c: char| if c == '-' { ' ' } else { c })
}

// ── Lookup by name ───────────────────────────────────────────

/// `name` without a trailing `.sh`, if it has one.
pub open spec fn strip_sh(name: Seq<char>) -> Seq<char> {
    if name.len() >= 3 && name.skip(name.len() - 3) == seq!['.', 's', 'h'] {
        name.take(name.len() - 3)
    } else {
        name
    }
}

/// The first script called `name`, with or without a `.sh` suffix.
pub fn find_by_name<'a>(scripts: &'a [Script], name: &str) -> (r: Option<&'a Script>)
    ensures
        match r {
            Some(s) => exists|i: int|
                0 <= i < scripts@.len() && *s == scripts@[i] && scripts@[i].name@ == strip_sh(name@)
                    && forall|j: int| 0 <= j < i ==> scripts@[j].name@ != strip_sh(name@),
            None => forall|i: int| 0 <= i < scripts@.len() ==> scripts@[i].name@ != strip_sh(name@),
        },
{
    let n = chars_of(name);
    let len = n.len();
    let bare = if len >= 3 && n[len - 3] == '.' && n[len - 2] == 's' && n[len - 1] == 'h' {
        assert(n@.skip(len - 3) =~= seq!['.', 's', 'h']);
        sub_chars(&n, 0, len - 3)
    } else {
        proof {
            if len >= 3 && n@.skip(len - 3) == seq!['.', 's', 'h'] {
                assert(n@.skip(len - 3)[0] == n@[len - 3]);
                assert(n@.skip(len - 3)[1] == n@[len - 2]);
                assert(n@.skip(len - 3)[2] == n@[len - 1]);
            }
        }
        sub_chars(&n, 0, len)
    };
    assert(bare@ =~= strip_sh(name@));
    let mut i: usize = 0;
    while i < scripts.len()
        invariant
            i <= scripts@.len(),
            bare@ == strip_sh(name@),
            forall|j: int| 0 <= j < i ==> scripts@[j].name@ != strip_sh(name@),
        decreases scripts@.len() - i,
    {
        let sn = chars_of(scripts[i].name.as_str());
        if chars_eq(&sn, &bare) {
            return Some(&scripts[i]);
        }
        i += 1;
    }
    None
}

/// The message for a script name that no script answers to.
pub open spec fn not_found_message(name: Seq<char>) -> Seq<char> {
    "Script not found: "@ + name
}

/// The first script called `name`, with or without a `.sh` suffix (as
/// `find_by_name` finds it), or the error `Script not found: <name>`.
pub fn find_script<'a>(scripts: &'a [Script], name: &str) -> (r: Result<&'a Script, String>)
    ensures
        match r {
            Ok(s) => exists|i: int|
                0 <= i < scripts@.len() && *s == scripts@[i] && scripts@[i].name@ == strip_sh(name@)
                    && forall|j: int| 0 <= j < i ==> scripts@[j].name@ != strip_sh(name@),
            Err(e) => e@ == not_found_message(name@) && forall|i: int|
                0 <= i < scripts@.len() ==> scripts@[i].name@ != strip_sh(name@),
        },
{
    match find_by_name(scripts, name) {
        Some(s) => Ok(s),
        None => {
            let mut msg = chars_of("Script not found: ");
            let n = chars_of(name);
            let ghost head = msg@;
            let mut k: usize = 0;
            while k < n.len()
                invariant
                    k <= n.len(),
                    msg@ == head + n@.take(k as int),
                decreases n.len() - k,
            {
                msg.push(n[k]);
                k += 1;
                assert(msg@ =~= head + n@.take(k as int));
            }
            assert(n@.take(n.len() as int) =~= n@);
            Err(string_of(&msg))
        },
    }
}

// ── Tags ─────────────────────────────────────────────────────

/// `t` is a tag of some script in `scripts`.
pub open spec fn is_tag_of(scripts: Seq<Script>, t: Seq<char>) -> bool {
    exists|i: int, j: int|
        0 <= i < scripts.len() && 0 <= j < scripts[i].tags@.len() && scripts[i].tags@[j]@ == t
}

/// Every entry comes strictly before the later ones.
pub open spec fn strictly_sorted(s: Seq<Seq<char>>) -> bool {
    forall|k: int, l: int| 0 <= k < l < s.len() ==> seq_lt(s[k], s[l])
}

/// Inserts `x` into the strictly sorted `v`, unless it is already there.
fn insert_sorted_unique(v: &mut Vec<Vec<char>>, x: Vec<char>)
    requires
        strictly_sorted(char_views(old(v)@)),
    ensures
        strictly_sorted(char_views(final(v)@)),
        forall|y: Seq<char>|
            char_views(final(v)@).contains(y) <==> (char_views(old(v)@).contains(y) || y == x@),
{
    let ghost old_v = char_views(v@);
    let mut j: usize = 0;
    while j < v.len() && chars_lt(&v[j], &x)
        invariant
            j <= v.len(),
            char_views(v@) == old_v,
            forall|k: int| 0 <= k < j ==> seq_lt(#[trigger] old_v[k], x@),
        decreases v.len() - j,
    {
        j += 1;
    }
    if j < v.len() && chars_eq(&v[j], &x) {
        assert(old_v[j as int] == x@);
        assert forall|y: Seq<char>| (old_v.contains(y) || y == x@) implies old_v.contains(y) by {
            if y == x@ {
                assert(old_v[j as int] == y);
            }
        }
        return;
    }
    let ghost xv = x@;
    v.insert(j, x);
    proof {
        let n = char_views(v@);
        assert(n =~= old_v.insert(j as int, xv));
        if j < old_v.len() {
            lemma_seq_lt_total(old_v[j as int], xv);
        }
        assert forall|k: int, l: int| 0 <= k < l < n.len() implies seq_lt(n[k], n[l]) by {
            if l < j {
                assert(n[k] == old_v[k] && n[l] == old_v[l]);
            } else if l == j {
                assert(n[k] == old_v[k] && n[l] == xv);
            } else if k < j {
                assert(n[k] == old_v[k] && n[l] == old_v[l - 1]);
            } else if k == j {
                assert(n[k] == xv && n[l] == old_v[l - 1]);
                if l - 1 > j {
                    lemma_seq_lt_transitive(xv, old_v[j as int], old_v[l - 1]);
                }
            } else {
                assert(n[k] == old_v[k - 1] && n[l] == old_v[l - 1]);
            }
        }
        assert forall|y: Seq<char>| n.contains(y) implies (old_v.contains(y) || y == xv) by {
            let k = choose|k: int| 0 <= k < n.len() && n[k] == y;
            if k < j {
                assert(old_v[k] == y);
            } else if k > j {
                assert(old_v[k - 1] == y);
            }
        }
        assert forall|y: Seq<char>| (old_v.contains(y) || y == xv) implies n.contains(y) by {
            if y == xv {
                assert(n[j as int] == xv);
            } else {
                let k = choose|k: int| 0 <= k < old_v.len() && old_v[k] == y;
                if k < j {
                    assert(n[k] == y);
                } else {
                    assert(n[k + 1] == y);
                }
            }
        }
    }
}

/// All distinct tags of all scripts, in ascending order.
pub fn all_tags(scripts: &[Script]) -> (r: Vec<String>)
    ensures
        strictly_sorted(string_views(r@)),
        forall|t: Seq<char>| string_views(r@).contains(t) <==> is_tag_of(scripts@, t),
{
    let mut acc: Vec<Vec<char>> = Vec::new();
    let mut i: usize = 0;
    while i < scripts.len()
        invariant
            i <= scripts@.len(),
            strictly_sorted(char_views(acc@)),
            forall|t: Seq<char>|
                char_views(acc@).contains(t) <==> is_tag_of(scripts@.take(i as int), t),
        decreases scripts@.len() - i,
    {
        let tags = &scripts[i].tags;
        let mut j: usize = 0;
        while j < tags.len()
            invariant
                i < scripts@.len(),
                tags == scripts@[i as int].tags,
                j <= tags.len(),
                strictly_sorted(char_views(acc@)),
                forall|t: Seq<char>|
                    char_views(acc@).contains(t) <==> (is_tag_of(scripts@.take(i as int), t) || exists|
                        m: int,
                    | 0 <= m < j && tags@[m]@ == t),
            decreases tags.len() - j,
        {
            let x = chars_of(tags[j].as_str());
            insert_sorted_unique(&mut acc, x);
            j += 1;
        }
        proof {
            let pre = scripts@.take(i as int);
            let post = scripts@.take(i + 1);
            assert forall|t: Seq<char>| char_views(acc@).contains(t) <==> is_tag_of(post, t) by {
                if is_tag_of(post, t) {
                    let (a, b) = choose|a: int, b: int|
                        0 <= a < post.len() && 0 <= b < post[a].tags@.len() && post[a].tags@[b]@ == t;
                    if a < i {
                        assert(pre[a] == post[a]);
                        assert(is_tag_of(pre, t));
                    }
                }
                if is_tag_of(pre, t) {
                    let (a, b) = choose|a: int, b: int|
                        0 <= a < pre.len() && 0 <= b < pre[a].tags@.len() && pre[a].tags@[b]@ == t;
                    assert(post[a] == pre[a]);
                }
                if exists|m: int| 0 <= m < tags.len() && tags@[m]@ == t {
                    let m = choose|m: int| 0 <= m < tags.len() && tags@[m]@ == t;
                    assert(post[i as int] == scripts@[i as int]);
                }
            }
        }
        i += 1;
    }
    assert(scripts@.take(scripts@.len() as int) =~= scripts@);
    strings_of(&acc)
}

/// `s` carries the tag `tag`.
pub open spec fn has_tag_spec(s: Script, tag: Seq<char>) -> bool {
    exists|j: int| 0 <= j < s.tags@.len() && s.tags@[j]@ == tag
}

/// Whether the script carries the tag `tag` (exact comparison).
pub fn has_tag(s: &Script, tag: &str) -> (r: bool)
    ensures
        r == has_tag_spec(*s, tag@),
{
    let t = chars_of(tag);
    let mut j: usize = 0;
    while j < s.tags.len()
        invariant
            j <= s.tags.len(),
            t@ == tag@,
            forall|m: int| 0 <= m < j ==> s.tags@[m]@ != tag@,
        decreases s.tags.len() - j,
    {
        let x = chars_of(s.tags[j].as_str());
        if chars_eq(&x, &t) {
            return true;
        }
        j += 1;
    }
    false
}

/// How many scripts carry the tag `tag`.
pub open spec fn count_tagged(scripts: Seq<Script>, tag: Seq<char>) -> nat
    decreases scripts.len(),
{
    if scripts.len() == 0 {
        0
    } else {
        count_tagged(scripts.drop_last(), tag) + if has_tag_spec(scripts.last(), tag) {
            1nat
        } else {
            0nat
        }
    }
}

/// How many scripts carry the tag `tag`.
pub fn count_with_tag(scripts: &[Script], tag: &str) -> (r: usize)
    ensures
        r == count_tagged(scripts@, tag@),
{
    let mut n: usize = 0;
    let mut i: usize = 0;
    while i < scripts.len()
        invariant
            i <= scripts@.len(),
            n == count_tagged(scripts@.take(i as int), tag@),
            n <= i,
        decreases scripts@.len() - i,
    {
        assert(scripts@.take(i + 1).drop_last() =~= scripts@.take(i as int));
        if has_tag(&scripts[i], tag) {
            n += 1;
        }
        i += 1;
    }
    assert(scripts@.take(scripts@.len() as int) =~= scripts@);
    n
}

/// A script carries a tag exactly when the tag is, character for
/// character, one of its tags: a tag that merely starts or ends with it, or
/// differs from it in any way, does not count.
pub proof fn lemma_has_tag_is_exact(s: Script, tag: Seq<char>)
    ensures
        has_tag_spec(s, tag) <==> string_views(s.tags@).contains(tag),
        has_tag_spec(s, tag) ==> exists|j: int|
            0 <= j < s.tags@.len() && (#[trigger] s.tags@[j])@.len() == tag.len() && forall|c: int|
                0 <= c < tag.len() ==> s.tags@[j]@[c] == tag[c],
{
    if has_tag_spec(s, tag) {
        let j = choose|j: int| 0 <= j < s.tags@.len() && s.tags@[j]@ == tag;
        assert(string_views(s.tags@)[j] == tag);
    }
    if string_views(s.tags@).contains(tag) {
        let j = choose|j: int| 0 <= j < string_views(s.tags@).len() && string_views(s.tags@)[j] == tag;
        assert(s.tags@[j]@ == tag);
    }
}

/// The number of scripts carrying a tag is the number of scripts among
/// whose tags it occurs exactly.
pub proof fn lemma_count_tagged_is_exact(scripts: Seq<Script>, tag: Seq<char>)
    ensures
        count_tagged(scripts, tag) == scripts.filter(|x: Script| string_views(x.tags@).contains(tag)).len(),
    decreases scripts.len(),
{
    reveal(Seq::filter);
    if scripts.len() > 0 {
        lemma_count_tagged_is_exact(scripts.drop_last(), tag);
        lemma_has_tag_is_exact(scripts.last(), tag);
    }
}

// ── Discovery ────────────────────────────────────────────────

/// No earlier file in `files` has the name of `files[k]`.
pub open spec fn first_of_name(files: Seq<ScriptFile>, k: int) -> bool {
    forall|m: int| 0 <= m < k ==> files[m].name@ != files[k].name@
}

/// The names of `scripts` are strictly ascending.
pub open spec fn sorted_by_name(scripts: Seq<Script>) -> bool {
    forall|k: int, l: int| 0 <= k < l < scripts.len() ==> seq_lt(scripts[k].name@, scripts[l].name@)
}

/// Inserts `x` into `v`, keeping the names strictly ascending.
fn insert_by_name(v: &mut Vec<Script>, x: Script)
    requires
        sorted_by_name(old(v)@),
        forall|k: int| 0 <= k < old(v)@.len() ==> (#[trigger] old(v)@[k]).name@ != x.name@,
    ensures
        sorted_by_name(final(v)@),
        forall|y: Script| final(v)@.contains(y) <==> (old(v)@.contains(y) || y == x),
{
    let ghost old_v = v@;
    let xn = chars_of(x.name.as_str());
    let mut j: usize = 0;
    while j < v.len() && chars_lt(&chars_of(v[j].name.as_str()), &xn)
        invariant
            j <= v.len(),
            v@ == old_v,
            xn@ == x.name@,
            forall|k: int| 0 <= k < j ==> seq_lt(#[trigger] old_v[k].name@, x.name@),
        decreases v.len() - j,
    {
        j += 1;
    }
    let ghost xv = x;
    v.insert(j, x);
    proof {
        let n = v@;
        assert(n == old_v.insert(j as int, xv));
        if j < old_v.len() {
            lemma_seq_lt_total(old_v[j as int].name@, xv.name@);
        }
        assert forall|k: int, l: int| 0 <= k < l < n.len() implies seq_lt(n[k].name@, n[l].name@) by {
            if l < j {
                assert(n[k] == old_v[k] && n[l] == old_v[l]);
            } else if l == j {
                assert(n[k] == old_v[k] && n[l] == xv);
            } else if k < j {
                assert(n[k] == old_v[k] && n[l] == old_v[l - 1]);
            } else if k == j {
                assert(n[k] == xv && n[l] == old_v[l - 1]);
                if l - 1 > j {
                    lemma_seq_lt_transitive(xv.name@, old_v[j as int].name@, old_v[l - 1].name@);
                }
            } else {
                assert(n[k] == old_v[k - 1] && n[l] == old_v[l - 1]);
            }
        }
        assert forall|y: Script| n.contains(y) implies (old_v.contains(y) || y == xv) by {
            let k = choose|k: int| 0 <= k < n.len() && n[k] == y;
            if k < j {
                assert(old_v[k] == y);
            } else if k > j {
                assert(old_v[k - 1] == y);
            }
        }
        assert forall|y: Script| (old_v.contains(y) || y == xv) implies n.contains(y) by {
            if y == xv {
                assert(n[j as int] == xv);
            } else {
                let k = choose|k: int| 0 <= k < old_v.len() && old_v[k] == y;
                if k < j {
                    assert(n[k] == y);
                } else {
                    assert(n[k + 1] == y);
                }
            }
        }
    }
}

/// Whether `name` occurs in `seen`.
fn seen_contains(seen: &Vec<Vec<char>>, name: &Vec<char>) -> (r: bool)
    ensures
        r == char_views(seen@).contains(name@),
{
    let mut i: usize = 0;
    while i < seen.len()
        invariant
            i <= seen.len(),
            forall|k: int| 0 <= k < i ==> seen@[k]@ != name@,
        decreases seen.len() - i,
    {
        if chars_eq(&seen[i], name) {
            assert(char_views(seen@)[i as int] == name@);
            return true;
        }
        i += 1;
    }
    assert forall|k: int| 0 <= k < char_views(seen@).len() implies char_views(seen@)[k] != name@ by {
        assert(char_views(seen@)[k] == seen@[k]@);
    }
    false
}

/// `s` was loaded from a file among the first `bound` that is the first of its name.
pub open spec fn chosen(files: Seq<ScriptFile>, s: Script, bound: int) -> bool {
    exists|m: int| 0 <= m < bound && first_of_name(files, m) && loaded_from(s, files[m])
}

/// Some script of `scripts` was loaded from `f`.
pub open spec fn present(scripts: Seq<Script>, f: ScriptFile) -> bool {
    exists|j: int| 0 <= j < scripts.len() && loaded_from(scripts[j], f)
}

proof fn lemma_chosen_grows(files: Seq<ScriptFile>, s: Script, bound: int)
    requires
        chosen(files, s, bound),
    ensures
        chosen(files, s, bound + 1),
{
    let m = choose|m: int| 0 <= m < bound && first_of_name(files, m) && loaded_from(s, files[m]);
    assert(0 <= m < bound + 1 && first_of_name(files, m) && loaded_from(s, files[m]));
}

proof fn lemma_present_after_insert(old_s: Seq<Script>, new_s: Seq<Script>, x: Script, f: ScriptFile)
    requires
        present(old_s, f) || loaded_from(x, f),
        forall|y: Script| new_s.contains(y) <==> (old_s.contains(y) || y == x),
    ensures
        present(new_s, f),
{
    if loaded_from(x, f) {
        assert(new_s.contains(x));
        let j = choose|j: int| 0 <= j < new_s.len() && new_s[j] == x;
        assert(loaded_from(new_s[j], f));
    } else {
        let jj = choose|jj: int| 0 <= jj < old_s.len() && loaded_from(old_s[jj], f);
        assert(old_s.contains(old_s[jj]));
        assert(new_s.contains(old_s[jj]));
        let j = choose|j: int| 0 <= j < new_s.len() && new_s[j] == old_s[jj];
        assert(loaded_from(new_s[j], f));
    }
}

/// Loads the scripts of `files`, which lists the `.sh` files of all search
/// directories, highest-priority directory first. The first file of each
/// name wins (a name taken by an unreadable file stays taken); the result
/// is sorted by name.
pub fn collect(files: &Vec<ScriptFile>) -> (r: Vec<Script>)
    ensures
        forall|j: int| 0 <= j < r@.len() ==> chosen(files@, #[trigger] r@[j], files@.len() as int),
        forall|k: int|
            0 <= k < files@.len() && first_of_name(files@, k) && (#[trigger] files@[k]).content is Some
                ==> present(r@, files@[k]),
        sorted_by_name(r@),
{
    let mut seen: Vec<Vec<char>> = Vec::new();
    let mut scripts: Vec<Script> = Vec::new();
    let mut k: usize = 0;
    while k < files.len()
        invariant
            k <= files@.len(),
            forall|x: Seq<char>|
                char_views(seen@).contains(x) <==> exists|m: int| 0 <= m < k && files@[m].name@ == x,
            sorted_by_name(scripts@),
            forall|j: int| 0 <= j < scripts@.len() ==> chosen(files@, #[trigger] scripts@[j], k as int),
            forall|m: int|
                0 <= m < k && first_of_name(files@, m) && (#[trigger] files@[m]).content is Some
                    ==> present(scripts@, files@[m]),
        decreases files@.len() - k,
    {
        let f = &files[k];
        let name = chars_of(f.name.as_str());
        let ghost old_scripts = scripts@;
        let ghost old_seen = char_views(seen@);
        if seen_contains(&seen, &name) {
            proof {
                let m0 = choose|m: int| 0 <= m < k && files@[m].name@ == name@;
                assert(!first_of_name(files@, k as int));
            }
        } else {
            proof {
                assert forall|m: int| 0 <= m < k implies files@[m].name@ != files@[k as int].name@ by {
                    if files@[m].name@ == name@ {
                        assert(char_views(seen@).contains(name@));
                    }
                }
                assert(first_of_name(files@, k as int));
            }
            let ghost nv = name@;
            seen.push(name);
            assert(char_views(seen@) =~= old_seen.push(nv));
            match &f.content {
                Some(content) => {
                    let script = Script::from_contents(
                        f.name.clone(),
                        f.path.clone(),
                        content.as_str(),
                    );
                    assert(loaded_from(script, files@[k as int]));
                    proof {
                        assert forall|j: int| 0 <= j < old_scripts.len() implies (
                        #[trigger] old_scripts[j]).name@ != script.name@ by {
                            let m = choose|m: int|
                                0 <= m < k && first_of_name(files@, m) && loaded_from(
                                    old_scripts[j],
                                    files@[m],
                                );
                            assert(exists|mm: int| 0 <= mm < k && files@[mm].name@ == files@[m].name@);
                            assert(old_seen.contains(files@[m].name@));
                        }
                    }
                    insert_by_name(&mut scripts, script);
                    proof {
                        assert forall|j: int| 0 <= j < scripts@.len() implies chosen(
                            files@,
                            #[trigger] scripts@[j],
                            k + 1,
                        ) by {
                            assert(scripts@.contains(scripts@[j]));
                            if scripts@[j] != script {
                                let jj = choose|jj: int|
                                    0 <= jj < old_scripts.len() && old_scripts[jj] == scripts@[j];
                                lemma_chosen_grows(files@, old_scripts[jj], k as int);
                            } else {
                                assert(0 <= k < k + 1 && first_of_name(files@, k as int)
                                    && loaded_from(scripts@[j], files@[k as int]));
                            }
                        }
                        assert forall|m: int|
                            0 <= m < k + 1 && first_of_name(files@, m) && (
                            #[trigger] files@[m]).content is Some implies present(
                            scripts@,
                            files@[m],
                        ) by {
                            lemma_present_after_insert(old_scripts, scripts@, script, files@[m]);
                        }
                    }
                },
                None => {},
            }
        }
        proof {
            assert forall|x: Seq<char>| char_views(seen@).contains(x) implies exists|m: int|
                0 <= m < k + 1 && files@[m].name@ == x by {
                if old_seen.contains(x) {
                    let m = choose|m: int| 0 <= m < k && files@[m].name@ == x;
                    assert(0 <= m < k + 1 && files@[m].name@ == x);
                } else {
                    assert(files@[k as int].name@ == x);
                }
            }
            assert forall|x: Seq<char>| (exists|m: int| 0 <= m < k + 1 && files@[m].name@ == x) implies char_views(
                seen@,
            ).contains(x) by {
                let m = choose|m: int| 0 <= m < k + 1 && files@[m].name@ == x;
                if m < k {
                    assert(old_seen.contains(x));
                    let i = choose|i: int| 0 <= i < old_seen.len() && old_seen[i] == x;
                    assert(char_views(seen@)[i] == x);
                } else {
                    assert(old_seen.contains(name@) || char_views(seen@).last() == name@);
                    if old_seen.contains(name@) {
                        let i = choose|i: int| 0 <= i < old_seen.len() && old_seen[i] == x;
                        assert(char_views(seen@)[i] == x);
                    }
                }
            }
            if scripts@ == old_scripts {
                assert forall|j: int| 0 <= j < scripts@.len() implies chosen(
                    files@,
                    #[trigger] scripts@[j],
                    k + 1,
                ) by {
                    lemma_chosen_grows(files@, scripts@[j], k as int);
                }
            }
        }
        k += 1;
    }
    scripts
}

} // verus!
