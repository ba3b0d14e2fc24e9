//! Locating the user's installed `dsh`.
//!
//! Priority (only Tier 0 is fully reliable in a GUI context):
//!   - Tier 0: user-specified path in settings;
//!   - Tier 1: scan candidate bin directories, sort by version;
//!   - Tier 2: parse PATH files (/etc/paths, /etc/paths.d/*, ~/.zprofile, ~/.zshrc);
//!   - Tier 3: `zsh -lic 'command -v dsh'` as the last resort.
//!
//! Reading files and running programs is left to the caller; this module
//! holds what is decided from their results.
use crate::candidate::{
    clone_opt_string, dedupe, executables, first_occurrences, has_executable, make_candidate,
    sort_candidates, sorted_candidates, DshCandidate, LocateOutcome, Source,
};
use crate::launch::AppSettings;
use crate::paths::{expand_home, expanded, is_absolute, joined, path_join};
use crate::text::{
    is_ws,
    chars_of, ends_with, field_scan, fields, has_prefix, has_suffix, lines, lines_of, lossy_text,
    slice_chars,
    split_on, split_whitespace, starts_with, string_of, string_views, trim, trim_chars, trim_start,
    trim_start_chars, utf8_lossy, views, ws_tokens,
};
use vstd::prelude::*;

verus! {

broadcast use vstd::string::group_string_axioms;

/// Whether `path` names a regular file (`Path::is_file`). The answer depends
/// on the file system at the time of the call; nothing is stated of it.
#[verifier::external_body]
fn is_regular_file(path: &str) -> bool {
    std::path::Path::new(path).is_file()
}

/// The items of `items` whose flag in `keep` is set, in order.
pub open spec fn selected(items: Seq<Seq<char>>, keep: Seq<bool>) -> Seq<Seq<char>>
    decreases items.len(),
{
    if items.len() == 0 || keep.len() == 0 {
        seq![]
    } else {
        let rest = selected(items.drop_last(), keep.drop_last());
        if keep.last() {
            rest.push(items.last())
        } else {
            rest
        }
    }
}

/// The first item of `items` whose flag in `keep` is set.
pub open spec fn first_selected(items: Seq<Seq<char>>, keep: Seq<bool>) -> Option<Seq<char>>
    decreases items.len(),
{
    if items.len() == 0 || keep.len() == 0 {
        None
    } else if keep[0] {
        Some(items[0])
    } else {
        first_selected(items.drop_first(), keep.drop_first())
    }
}

// ---------------------------------------------------------------------------
// Tier 1: scanning directories
// ---------------------------------------------------------------------------
/// Default directories scanned for an executable named `dsh` (Tier 1).
pub open spec fn scan_dir_list() -> Seq<Seq<char>> {
    seq![
        "/usr/local/bin"@,
        "/opt/homebrew/bin"@,
        "/usr/bin"@,
        "/bin"@,
        "~/.local/share/pnpm"@,
        "~/.nvm/versions/node"@,
        "~/.cargo/bin"@,
        "~/Library/pnpm"@,
    ]
}

/// The Tier 1 directories with `~` resolved against `home`.
pub fn scan_dirs(home: &str) -> (r: Vec<String>)
    ensures
        r@.map_values(|s: String| s@) == scan_dir_list().map_values(
            |d: Seq<char>| expanded(d, home@),
        ),
{
    let mut r: Vec<String> = Vec::new();
    r.push(expand_home("/usr/local/bin", home));
    r.push(expand_home("/opt/homebrew/bin", home));
    r.push(expand_home("/usr/bin", home));
    r.push(expand_home("/bin", home));
    r.push(expand_home("~/.local/share/pnpm", home));
    r.push(expand_home("~/.nvm/versions/node", home));
    r.push(expand_home("~/.cargo/bin", home));
    r.push(expand_home("~/Library/pnpm", home));
    assert(r@.map_values(|s: String| s@) =~= scan_dir_list().map_values(
        |d: Seq<char>| expanded(d, home@),
    ));
    r
}

pub open spec fn dsh_in(dirs: Seq<Seq<char>>) -> Seq<Seq<char>> {
    dirs.map_values(|d: Seq<char>| joined(d, "dsh"@))
}

/// The `<dir>/dsh` paths of `dirs` whose flag in `is_file` is set, in order:
/// given which of them are regular files, what `find_dsh_executables` finds.
pub fn dsh_files(dirs: &Vec<String>, is_file: &Vec<bool>) -> (r: Vec<String>)
    requires
        is_file.len() == dirs.len(),
    ensures
        string_views(r@) == selected(dsh_in(string_views(dirs@)), is_file@),
{
    let paths = dsh_paths(dirs);
    let ghost items = dsh_in(string_views(dirs@));
    assert(string_views(paths@).len() == paths@.len());
    assert(string_views(dirs@).len() == dirs@.len());
    let mut out: Vec<String> = Vec::new();
    let mut i: usize = 0;
    while i < paths.len()
        invariant
            i <= paths.len() == is_file.len(),
            items == string_views(paths@),
            string_views(out@) == selected(
                items.subrange(0, i as int),
                is_file@.subrange(0, i as int),
            ),
        decreases paths.len() - i,
    {
        let ghost old_out = string_views(out@);
        assert(items.subrange(0, i + 1 as int).drop_last() =~= items.subrange(0, i as int));
        assert(is_file@.subrange(0, i + 1 as int).drop_last() =~= is_file@.subrange(0, i as int));
        if is_file[i] {
            out.push(paths[i].clone());
            assert(string_views(out@) =~= old_out.push(items[i as int]));
        }
        i = i + 1;
    }
    assert(items.subrange(0, paths.len() as int) =~= items);
    assert(is_file@.subrange(0, paths.len() as int) =~= is_file@);
    out
}

/// Find files named `dsh` inside the given directories: `<dir>/dsh` for each
/// directory, in order, keeping those that are regular files. Which of them
/// are is read from the file system; the result is `dsh_files` of those
/// answers.
pub fn find_dsh_executables(dirs: &Vec<String>) -> (r: Vec<String>)
    ensures
        exists|keep: Seq<bool>|
            keep.len() == dirs.len() && string_views(r@) == selected(
                dsh_in(string_views(dirs@)),
                keep,
            ),
{
    let paths = dsh_paths(dirs);
    assert(string_views(paths@).len() == paths@.len());
    assert(string_views(dirs@).len() == dirs@.len());
    let mut is_file: Vec<bool> = Vec::new();
    let mut i: usize = 0;
    while i < paths.len()
        invariant
            i <= paths.len(),
            paths.len() == dirs.len(),
            is_file.len() == i,
        decreases paths.len() - i,
    {
        is_file.push(is_regular_file(paths[i].as_str()));
        i = i + 1;
    }
    dsh_files(dirs, &is_file)
}

// ---------------------------------------------------------------------------
// Tier 2: PATH assignments in shell files
// ---------------------------------------------------------------------------
/// `str::trim_start_matches(p)`: every leading copy of `p` removed.
pub open spec fn strip_prefixes(s: Seq<char>, p: Seq<char>) -> Seq<char>
    decreases s.len(),
{
    if p.len() > 0 && has_prefix(s, p) {
        strip_prefixes(s.subrange(p.len() as int, s.len() as int), p)
    } else {
        s
    }
}

/// `s` without leading copies of `c`.
pub open spec fn strip_char_start(s: Seq<char>, c: char) -> Seq<char>
    decreases s.len(),
{
    if s.len() > 0 && s[0] == c {
        strip_char_start(s.drop_first(), c)
    } else {
        s
    }
}

/// `s` without trailing copies of `c`.
pub open spec fn strip_char_end(s: Seq<char>, c: char) -> Seq<char>
    decreases s.len(),
{
    if s.len() > 0 && s.last() == c {
        strip_char_end(s.drop_last(), c)
    } else {
        s
    }
}

/// `str::trim_matches(c)`.
pub open spec fn strip_char(s: Seq<char>, c: char) -> Seq<char> {
    strip_char_end(strip_char_start(s, c), c)
}

/// The right-hand side of a `PATH=` assignment line (optionally after
/// `export`), with a trailing comment, white space and quotes removed;
/// `None` for blank lines, comments and other lines.
pub open spec fn path_assignment(line: Seq<char>) -> Option<Seq<char>> {
    let l = trim(line);
    if l.len() == 0 || l[0] == '#' {
        None
    } else {
        let assign = trim_start(strip_prefixes(l, "export"@));
        if !has_prefix(assign, "PATH="@) {
            None
        } else {
            let rhs = assign.subrange("PATH="@.len() as int, assign.len() as int);
            let rhs = trim(fields(rhs, '#')[0]);
            Some(strip_char(strip_char(rhs, '"'), '\''))
        }
    }
}

/// The quote characters a PATH value may be wrapped in.
pub open spec fn is_quote(c: char) -> bool {
    c == '"' || c == '\''
}

proof fn lemma_no_hash_field(s: Seq<char>)
    requires
        !s.contains('#'),
    ensures
        fields(s, '#')[0] == s,
{
    lemma_field_scan_plain(s);
}

proof fn lemma_field_scan_plain(s: Seq<char>)
    requires
        !s.contains('#'),
    ensures
        field_scan(s, '#') == (Seq::<Seq<char>>::empty(), s),
    decreases s.len(),
{
    if s.len() > 0 {
        let d = s.drop_last();
        assert(!d.contains('#')) by {
            if d.contains('#') {
                let i = choose|i: int| 0 <= i < d.len() && d[i] == '#';
                assert(s[i] == '#');
            }
        }
        lemma_field_scan_plain(d);
        assert(s.last() == s[s.len() - 1]);
        assert(d.push(s.last()) =~= s);
    } else {
        assert(s =~= Seq::<char>::empty());
    }
}

/// A `PATH=` line gives the same value whether its right-hand side `v` is
/// written bare, in double quotes or in single quotes, with or without a
/// leading `export`: the quotes never become part of the entries. (`v` is a
/// value that does not itself begin or end with white space or a quote and
/// holds no `#`.)
pub proof fn path_value_quoting_is_irrelevant(v: Seq<char>, q: Seq<char>, exported: bool)
    requires
        v.len() > 0,
        !is_ws(v[0]) && !is_quote(v[0]),
        !is_ws(v.last()) && !is_quote(v.last()),
        !v.contains('#'),
        q == Seq::<char>::empty() || q == seq!['"'] || q == seq!['\''],
    ensures
        path_assignment((if exported { "export "@ } else { Seq::<char>::empty() }) + "PATH="@ + q + v + q)
            == Some(v),
{
    reveal_strlit("export ");
    reveal_strlit("export");
    reveal_strlit("PATH=");
    let pre: Seq<char> = if exported { "export "@ } else { Seq::<char>::empty() };
    let line = pre + "PATH="@ + q + v + q;
    let rhs = q + v + q;
    let core = "PATH="@ + rhs;
    assert(line =~= pre + core);
    // The line has no white space at either end.
    assert(!is_ws(line[0]));
    assert(line.last() == (if q.len() > 0 { q[0] } else { v.last() }));
    assert(!is_ws(line.last()));
    assert(trim_start(line) == line);
    assert(trim(line) == line);
    // `export` is dropped, then the space after it.
    assert(core[0] == 'P');
    assert(core.subrange(0, 5) =~= "PATH="@);
    if exported {
        assert(line.subrange(0, 6) =~= "export"@);
        assert(has_prefix(line, "export"@));
        let rest = line.subrange(6, line.len() as int);
        assert(rest =~= seq![' '] + core);
        assert(rest.subrange(0, 6)[0] == ' ');
        assert(!has_prefix(rest, "export"@));
        assert(strip_prefixes(rest, "export"@) == rest);
        assert(strip_prefixes(line, "export"@) == rest);
        assert(is_ws(rest[0]));
        assert(rest.drop_first() =~= core);
        assert(trim_start(core) == core);
        assert(trim_start(rest) == core);
    } else {
        assert(line =~= core);
        assert(core.subrange(0, 6)[0] == 'P');
        assert(!has_prefix(core, "export"@));
        assert(strip_prefixes(core, "export"@) == core);
        assert(trim_start(core) == core);
    }
    assert(has_prefix(core, "PATH="@));
    assert(core.subrange(5, core.len() as int) =~= rhs);
    assert(!rhs.contains('#')) by {
        if rhs.contains('#') {
            let i = choose|i: int| 0 <= i < rhs.len() && rhs[i] == '#';
            if i >= q.len() && i < q.len() + v.len() {
                assert(v[i - q.len()] == '#');
            }
        }
    }
    lemma_no_hash_field(rhs);
    assert(!is_ws(rhs[0]));
    assert(!is_ws(rhs.last()));
    assert(trim_start(rhs) == rhs);
    assert(trim(rhs) == rhs);
    if q.len() == 0 {
        assert(rhs =~= v);
        assert(strip_char_start(v, '"') == v);
        assert(strip_char_end(v, '"') == v);
        assert(strip_char_start(v, '\'') == v);
        assert(strip_char_end(v, '\'') == v);
    } else {
        let c = q[0];
        let other = if c == '"' { '\'' } else { '"' };
        assert(rhs.drop_first() =~= v + q);
        assert((v + q)[0] == v[0]);
        assert(strip_char_start(v + q, c) == v + q);
        assert(strip_char_start(rhs, c) == v + q);
        assert((v + q).drop_last() =~= v);
        assert(strip_char_end(v, c) == v);
        assert(strip_char_end(v + q, c) == v);
        assert(strip_char_start(rhs, other) == rhs);
        assert(strip_char_end(rhs, other) == rhs);
        assert(strip_char_start(v, other) == v);
        assert(strip_char_end(v, other) == v);
    }
}

/// A PATH entry worth keeping: not empty and not a reference to `$PATH`.
pub open spec fn is_new_entry(p: Seq<char>) -> bool {
    p.len() > 0 && p != "$PATH"@ && p != "${PATH}"@
}

/// The trimmed `:`-separated entries of `parts` that are new entries.
pub open spec fn new_entries(parts: Seq<Seq<char>>) -> Seq<Seq<char>>
    decreases parts.len(),
{
    if parts.len() == 0 {
        seq![]
    } else {
        let rest = new_entries(parts.drop_last());
        if is_new_entry(trim(parts.last())) {
            rest.push(trim(parts.last()))
        } else {
            rest
        }
    }
}

/// The PATH entries one line contributes.
pub open spec fn line_exports(line: Seq<char>) -> Seq<Seq<char>> {
    match path_assignment(line) {
        Some(rhs) => new_entries(fields(rhs, ':')),
        None => seq![],
    }
}

/// The PATH entries of a sequence of lines, in order.
pub open spec fn lines_exports(ls: Seq<Seq<char>>) -> Seq<Seq<char>>
    decreases ls.len(),
{
    if ls.len() == 0 {
        seq![]
    } else {
        lines_exports(ls.drop_last()) + line_exports(ls.last())
    }
}

/// The PATH entries that a shell snippet's `PATH=` assignments prepend.
pub open spec fn path_exports(text: Seq<char>) -> Seq<Seq<char>> {
    lines_exports(lines(text))
}

fn strip_prefixes_chars(v: &Vec<char>, p: &Vec<char>) -> (r: Vec<char>)
    ensures
        r@ == strip_prefixes(v@, p@),
{
    if p.len() == 0 {
        return slice_chars(v, 0, v.len());
    }
    let mut i: usize = 0;
    assert(v@.subrange(0, v.len() as int) =~= v@);
    loop
        invariant
            i <= v.len(),
            p.len() > 0,
            strip_prefixes(v@, p@) == strip_prefixes(v@.subrange(i as int, v.len() as int), p@),
        decreases v.len() - i,
    {
        let rest = slice_chars(v, i, v.len());
        if !starts_with(&rest, p) {
            return rest;
        }
        assert(rest@.subrange(p.len() as int, rest.len() as int) =~= v@.subrange(
            i + p.len(),
            v.len() as int,
        ));
        i = i + p.len();
    }
}

fn strip_char_chars(v: &Vec<char>, c: char) -> (r: Vec<char>)
    ensures
        r@ == strip_char(v@, c),
{
    let mut i: usize = 0;
    assert(v@.subrange(0, v.len() as int) =~= v@);
    while i < v.len() && v[i] == c
        invariant
            i <= v.len(),
            strip_char_start(v@, c) == strip_char_start(v@.subrange(i as int, v.len() as int), c),
        decreases v.len() - i,
    {
        assert(v@.subrange(i as int, v.len() as int).drop_first() =~= v@.subrange(
            i + 1 as int,
            v.len() as int,
        ));
        i = i + 1;
    }
    let a = slice_chars(v, i, v.len());
    let mut j: usize = a.len();
    assert(a@.subrange(0, a.len() as int) =~= a@);
    while j > 0 && a[j - 1] == c
        invariant
            j <= a.len(),
            strip_char_end(a@, c) == strip_char_end(a@.subrange(0, j as int), c),
        decreases j,
    {
        assert(a@.subrange(0, j as int).drop_last() =~= a@.subrange(0, j - 1 as int));
        j = j - 1;
    }
    slice_chars(&a, 0, j)
}

/// The right-hand side of a `PATH=` assignment line, if it is one.
fn path_assignment_of(line: &Vec<char>) -> (r: Option<Vec<char>>)
    ensures
        match r {
            Some(v) => path_assignment(line@) == Some(v@),
            None => path_assignment(line@) is None,
        },
{
    let l = trim_chars(line);
    if l.len() == 0 || l[0] == '#' {
        return None;
    }
    let export = chars_of("export");
    let stripped = strip_prefixes_chars(&l, &export);
    let assign = trim_start_chars(&stripped);
    let path_eq = chars_of("PATH=");
    if !starts_with(&assign, &path_eq) {
        return None;
    }
    let rhs = slice_chars(&assign, path_eq.len(), assign.len());
    let pieces = split_on(&rhs, '#');
    assert(fields(rhs@, '#').len() > 0);
    assert(pieces.len() > 0);
    assert(views(pieces@)[0] == pieces@[0]@);
    let rhs = trim_chars(&pieces[0]);
    let rhs = strip_char_chars(&rhs, '"');
    Some(strip_char_chars(&rhs, '\''))
}

/// Extract PATH-like entries from a shell snippet by parsing `export PATH=...`
/// / `PATH=...` assignments (Tier 2).
pub fn extract_path_exports(shell_text: &str) -> (r: Vec<String>)
    ensures
        string_views(r@) == path_exports(shell_text@),
{
    let text = chars_of(shell_text);
    let ls = lines_of(&text);
    let ghost lv = lines(shell_text@);
    let dollar_path = chars_of("$PATH");
    let braced_path = chars_of("${PATH}");
    let mut entries: Vec<String> = Vec::new();
    let mut i: usize = 0;
    while i < ls.len()
        invariant
            i <= ls.len(),
            views(ls@) == lv,
            lv == lines(shell_text@),
            dollar_path@ == "$PATH"@,
            braced_path@ == "${PATH}"@,
            string_views(entries@) == lines_exports(lv.subrange(0, i as int)),
        decreases ls.len() - i,
    {
        assert(lv[i as int] == ls@[i as int]@);
        assert(lv.subrange(0, i + 1 as int).drop_last() =~= lv.subrange(0, i as int));
        let ghost before = string_views(entries@);
        if let Some(rhs) = path_assignment_of(&ls[i]) {
            let parts = split_on(&rhs, ':');
            let ghost pv = fields(rhs@, ':');
            let mut k: usize = 0;
            while k < parts.len()
                invariant
                    k <= parts.len(),
                    views(parts@) == pv,
                    dollar_path@ == "$PATH"@,
                    braced_path@ == "${PATH}"@,
                    string_views(entries@) == before + new_entries(pv.subrange(0, k as int)),
                decreases parts.len() - k,
            {
                assert(pv[k as int] == parts@[k as int]@);
                assert(pv.subrange(0, k + 1 as int).drop_last() =~= pv.subrange(0, k as int));
                let part = trim_chars(&parts[k]);
                if part.len() > 0 && !crate::text::chars_eq(&part, &dollar_path)
                    && !crate::text::chars_eq(&part, &braced_path) {
                    let ghost old_entries = string_views(entries@);
                    entries.push(string_of(&part));
                    assert(string_views(entries@) =~= old_entries.push(part@));
                }
                k = k + 1;
            }
            assert(pv.subrange(0, parts.len() as int) =~= pv);
        }
        i = i + 1;
    }
    assert(lv.subrange(0, ls.len() as int) =~= lv);
    entries
}

/// The PATH entries of several shell files, in order, each with `~` resolved.
pub open spec fn texts_exports(texts: Seq<Seq<char>>, home: Seq<char>) -> Seq<Seq<char>>
    decreases texts.len(),
{
    if texts.len() == 0 {
        seq![]
    } else {
        texts_exports(texts.drop_last(), home) + path_exports(texts.last()).map_values(
            |e: Seq<char>| expanded(e, home),
        )
    }
}

/// PATH contributions of the standard macOS PATH sources (Tier 2), given the
/// contents of the files that could be read, in the order /etc/paths,
/// /etc/paths.d/*, ~/.zprofile, ~/.zshrc.
pub fn parse_path_files(texts: &Vec<String>, home: &str) -> (r: Vec<String>)
    ensures
        string_views(r@) == texts_exports(string_views(texts@), home@),
{
    let ghost tv = string_views(texts@);
    let mut dirs: Vec<String> = Vec::new();
    let mut i: usize = 0;
    while i < texts.len()
        invariant
            i <= texts.len(),
            tv == string_views(texts@),
            string_views(dirs@) == texts_exports(tv.subrange(0, i as int), home@),
        decreases texts.len() - i,
    {
        assert(tv.subrange(0, i + 1 as int).drop_last() =~= tv.subrange(0, i as int));
        assert(tv[i as int] == texts@[i as int]@);
        let es = extract_path_exports(texts[i].as_str());
        let ghost before = string_views(dirs@);
        let ghost ev = path_exports(texts@[i as int]@);
        let mut k: usize = 0;
        while k < es.len()
            invariant
                k <= es.len(),
                string_views(es@) == ev,
                string_views(dirs@) == before + ev.subrange(0, k as int).map_values(
                    |e: Seq<char>| expanded(e, home@),
                ),
            decreases es.len() - k,
        {
            assert(ev[k as int] == es@[k as int]@);
            let ghost old_dirs = string_views(dirs@);
            dirs.push(expand_home(es[k].as_str(), home));
            assert(string_views(dirs@) =~= old_dirs.push(expanded(ev[k as int], home@)));
            assert(ev.subrange(0, k + 1 as int) =~= ev.subrange(0, k as int).push(ev[k as int]));
            k = k + 1;
            assert(string_views(dirs@) =~= before + ev.subrange(0, k as int).map_values(
                |e: Seq<char>| expanded(e, home@),
            ));
        }
        assert(ev.subrange(0, es.len() as int) =~= ev);
        i = i + 1;
    }
    assert(tv.subrange(0, texts.len() as int) =~= tv);
    dirs
}

// ---------------------------------------------------------------------------
// Resolving programs along a PATH
// ---------------------------------------------------------------------------
proof fn lemma_first_selected_at(items: Seq<Seq<char>>, keep: Seq<bool>, i: int)
    requires
        0 <= i < items.len(),
        keep.len() == items.len(),
        forall|k: int| 0 <= k < i ==> !keep[k],
        keep[i],
    ensures
        first_selected(items, keep) == Some(items[i]),
    decreases i,
{
    if i > 0 {
        lemma_first_selected_at(items.drop_first(), keep.drop_first(), i - 1);
    }
}

proof fn lemma_first_selected_none(items: Seq<Seq<char>>, keep: Seq<bool>)
    requires
        keep.len() == items.len(),
        forall|k: int| 0 <= k < keep.len() ==> !keep[k],
    ensures
        first_selected(items, keep) is None,
    decreases items.len(),
{
    if items.len() > 0 {
        lemma_first_selected_none(items.drop_first(), keep.drop_first());
    }
}

/// The trimmed, non-empty entries of `parts`.
pub open spec fn nonblank_entries(parts: Seq<Seq<char>>) -> Seq<Seq<char>>
    decreases parts.len(),
{
    if parts.len() == 0 {
        seq![]
    } else {
        let rest = nonblank_entries(parts.drop_last());
        if trim(parts.last()).len() > 0 {
            rest.push(trim(parts.last()))
        } else {
            rest
        }
    }
}

/// The paths `which_in(name, path)` tries, in order: `name` inside each
/// non-blank `:`-separated directory of `path`.
pub open spec fn which_candidates(name: Seq<char>, path: Seq<char>) -> Seq<Seq<char>> {
    nonblank_entries(fields(path, ':')).map_values(|d: Seq<char>| joined(d, name))
}

pub open spec fn opt_chars(o: Option<String>) -> Option<Seq<char>> {
    match o {
        Some(s) => Some(s@),
        None => None,
    }
}

/// The paths `which_in(name, path)` tries, in order: `name` inside each
/// non-blank `:`-separated entry of `path`, trimmed.
pub fn which_candidate_paths(name: &str, path: &str) -> (r: Vec<String>)
    ensures
        string_views(r@) == which_candidates(name@, path@),
{
    let parts = split_on(&chars_of(path), ':');
    let ghost pv = fields(path@, ':');
    let mut out: Vec<String> = Vec::new();
    let mut i: usize = 0;
    while i < parts.len()
        invariant
            i <= parts.len(),
            views(parts@) == pv,
            pv == fields(path@, ':'),
            string_views(out@) == nonblank_entries(pv.subrange(0, i as int)).map_values(
                |d: Seq<char>| joined(d, name@),
            ),
        decreases parts.len() - i,
    {
        assert(pv[i as int] == parts@[i as int]@);
        assert(pv.subrange(0, i + 1 as int).drop_last() =~= pv.subrange(0, i as int));
        let dir = trim_chars(&parts[i]);
        let ghost before = string_views(out@);
        if dir.len() > 0 {
            let p = path_join(string_of(&dir).as_str(), name);
            out.push(p);
            assert(string_views(out@) =~= before.push(joined(trim(pv[i as int]), name@)));
        }
        assert(string_views(out@) =~= nonblank_entries(pv.subrange(0, i + 1 as int)).map_values(
            |d: Seq<char>| joined(d, name@),
        ));
        i = i + 1;
    }
    assert(pv.subrange(0, parts.len() as int) =~= pv);
    out
}

/// The first of `candidates` whose flag in `is_file` is set: given which
/// candidates are regular files, the one `which_in` resolves to.
pub fn first_regular_file(candidates: &Vec<String>, is_file: &Vec<bool>) -> (r: Option<String>)
    requires
        is_file.len() == candidates.len(),
    ensures
        opt_chars(r) == first_selected(string_views(candidates@), is_file@),
{
    let ghost all = string_views(candidates@);
    let mut i: usize = 0;
    while i < candidates.len()
        invariant
            i <= candidates.len() == is_file.len(),
            all == string_views(candidates@),
            forall|k: int| 0 <= k < i ==> !is_file@[k],
        decreases candidates.len() - i,
    {
        if is_file[i] {
            proof {
                lemma_first_selected_at(all, is_file@, i as int);
            }
            return Some(candidates[i].clone());
        }
        i = i + 1;
    }
    proof {
        lemma_first_selected_none(all, is_file@);
    }
    None
}

/// Resolve a program name to an absolute path using `path` (':'-separated):
/// the first of `which_candidates(name, path)` that is a regular file. Each
/// candidate is tested with `is_regular_file`, whose answer depends on the
/// file system; the result is `first_regular_file` of those answers.
pub fn which_in(name: &str, path: &str) -> (r: Option<String>)
    ensures
        which_candidates(name@, path@).len() == 0 ==> r is None,
        exists|keep: Seq<bool>|
            keep.len() == which_candidates(name@, path@).len() && opt_chars(r) == first_selected(
                which_candidates(name@, path@),
                keep,
            ),
{
    let candidates = which_candidate_paths(name, path);
    let mut is_file: Vec<bool> = Vec::new();
    let mut i: usize = 0;
    while i < candidates.len()
        invariant
            i <= candidates.len(),
            is_file.len() == i,
        decreases candidates.len() - i,
    {
        is_file.push(is_regular_file(candidates[i].as_str()));
        i = i + 1;
    }
    assert(string_views(candidates@).len() == candidates@.len());
    first_regular_file(&candidates, &is_file)
}

// ---------------------------------------------------------------------------
// Shebang interpreters
// ---------------------------------------------------------------------------
/// The interpreter program named by a script's first line: for
/// `#!/usr/bin/env node` the token after `env`, otherwise the first token.
pub open spec fn shebang_program(text: Seq<char>) -> Option<Seq<char>> {
    let ls = lines(text);
    if ls.len() == 0 {
        None
    } else {
        let first = ls[0];
        if !has_prefix(first, "#!"@) {
            None
        } else {
            let toks = ws_tokens(trim(first.subrange("#!"@.len() as int, first.len() as int)));
            if toks.len() == 0 {
                None
            } else if is_absolute(toks[0]) {
                Some(toks[0])
            } else if has_suffix(toks[0], "/env"@) {
                if toks.len() >= 2 {
                    Some(toks[1])
                } else {
                    None
                }
            } else {
                Some(toks[0])
            }
        }
    }
}

/// The interpreter program a script's text names in its shebang line.
pub fn shebang_program_of(text: &str) -> (r: Option<String>)
    ensures
        opt_chars(r) == shebang_program(text@),
{
    let ls = lines_of(&chars_of(text));
    if ls.len() == 0 {
        return None;
    }
    let first = &ls[0];
    assert(lines(text@)[0] == first@);
    let hash_bang = chars_of("#!");
    if !starts_with(first, &hash_bang) {
        return None;
    }
    let rest = trim_chars(&slice_chars(first, hash_bang.len(), first.len()));
    let toks = split_whitespace(&rest);
    if toks.len() == 0 {
        return None;
    }
    assert(ws_tokens(rest@)[0] == toks@[0]@);
    let t0 = &toks[0];
    if t0.len() > 0 && t0[0] == '/' {
        return Some(string_of(t0));
    }
    let env = chars_of("/env");
    if ends_with(t0, &env) {
        if toks.len() >= 2 {
            assert(ws_tokens(rest@)[1] == toks@[1]@);
            return Some(string_of(&toks[1]));
        }
        return None;
    }
    Some(string_of(t0))
}

/// What the shebang of a script whose first bytes are `head` resolves to
/// along `path`: an absolute interpreter as it is, a relative one through
/// `which_in`.
pub open spec fn shebang_resolves(text: Seq<char>, path: Seq<char>, r: Option<Seq<char>>) -> bool {
    match shebang_program(text) {
        None => r is None,
        Some(p) => if is_absolute(p) {
            r == Some(p)
        } else {
            exists|keep: Seq<bool>|
                keep.len() == which_candidates(p, path).len() && r == first_selected(
                    which_candidates(p, path),
                    keep,
                )
        },
    }
}

/// Read the shebang of an executable (its first bytes are `head`) and resolve
/// the interpreter program to an absolute path using `path`. `None` when the
/// shebang cannot be parsed or the interpreter is not found.
pub fn shebang_interpreter(head: &[u8], path: &str) -> (r: Option<String>)
    ensures
        shebang_resolves(lossy_text(head@), path@, opt_chars(r)),
{
    let text = utf8_lossy(head);
    match shebang_program_of(text.as_str()) {
        None => None,
        Some(program) => {
            if crate::paths::path_is_absolute(program.as_str()) {
                Some(program)
            } else {
                which_in(program.as_str(), path)
            }
        },
    }
}

/// Where the interpreter of a script comes from.
#[derive(Debug)]
pub enum ShebangLookup {
    /// The script names no interpreter.
    NoInterpreter,
    /// It names an absolute interpreter path.
    Found(String),
    /// It names a program to be looked up: the first of these paths that is
    /// a regular file (`first_regular_file`), if any.
    Search(Vec<String>),
}

/// What the shebang of a script whose first bytes are `head` leads to along
/// `path`: nothing, an absolute interpreter, or the paths to try for a
/// relative one, in order.
pub fn shebang_lookup(head: &[u8], path: &str) -> (r: ShebangLookup)
    ensures
        match shebang_program(lossy_text(head@)) {
            None => r is NoInterpreter,
            Some(p) => if is_absolute(p) {
                r matches ShebangLookup::Found(f) && f@ == p
            } else {
                r matches ShebangLookup::Search(c) && string_views(c@) == which_candidates(
                    p,
                    path@,
                )
            },
        },
{
    let text = utf8_lossy(head);
    match shebang_program_of(text.as_str()) {
        None => ShebangLookup::NoInterpreter,
        Some(program) => {
            if crate::paths::path_is_absolute(program.as_str()) {
                ShebangLookup::Found(program)
            } else {
                ShebangLookup::Search(which_candidate_paths(program.as_str(), path))
            }
        },
    }
}

// ---------------------------------------------------------------------------
// Version and zsh output
// ---------------------------------------------------------------------------
/// The version a `dsh --version` run printed: taken from standard output, or
/// from standard error when standard output is blank.
pub open spec fn reported_version(out: Seq<char>, err: Seq<char>) -> Option<Seq<char>> {
    if trim(out).len() == 0 {
        crate::candidate::version_in(err)
    } else {
        crate::candidate::version_in(trim(out))
    }
}

/// The version of a `dsh --version` run, given what it wrote to standard
/// output and standard error.
pub fn detect_version(stdout: &[u8], stderr: &[u8]) -> (r: Option<String>)
    ensures
        opt_chars(r) == reported_version(lossy_text(stdout@), lossy_text(stderr@)),
{
    let out = utf8_lossy(stdout);
    let text = trim_chars(&chars_of(out.as_str()));
    if text.len() == 0 {
        let err = utf8_lossy(stderr);
        crate::candidate::parse_version(err.as_str())
    } else {
        let t = string_of(&text);
        crate::candidate::parse_version(t.as_str())
    }
}

/// The path `zsh -lic 'command -v dsh'` printed, trimmed; `None` when blank.
pub fn zsh_login_locate(stdout: &[u8]) -> (r: Option<String>)
    ensures
        opt_chars(r) == (if trim(lossy_text(stdout@)).len() == 0 {
            None
        } else {
            Some(trim(lossy_text(stdout@)))
        }),
{
    let out = utf8_lossy(stdout);
    let t = trim_chars(&chars_of(out.as_str()));
    if t.len() == 0 {
        None
    } else {
        Some(string_of(&t))
    }
}

// ---------------------------------------------------------------------------
// The spawn PATH
// ---------------------------------------------------------------------------
/// `path` with `dir` appended as a new `:`-separated entry unless it already
/// is one.
pub open spec fn with_entry(path: Seq<char>, dir: Seq<char>) -> Seq<char> {
    if fields(path, ':').contains(dir) {
        path
    } else {
        path + seq![':'] + dir
    }
}

pub open spec fn with_entries(path: Seq<char>, dirs: Seq<Seq<char>>) -> Seq<char>
    decreases dirs.len(),
{
    if dirs.len() == 0 {
        path
    } else {
        with_entry(with_entries(path, dirs.drop_last()), dirs.last())
    }
}

/// The spawn PATH: the current PATH, then the parsed directories, then the
/// common Homebrew locations and `<home>/.local/bin`, each only if missing.
pub open spec fn augmented(existing: Seq<char>, dirs: Seq<Seq<char>>, home: Seq<char>) -> Seq<char> {
    with_entry(
        with_entry(with_entry(with_entries(existing, dirs), "/opt/homebrew/bin"@), "/usr/local/bin"@),
        home + "/.local/bin"@,
    )
}

fn ensure_entry(path: &mut String, dir: &str)
    ensures
        final(path)@ == with_entry(old(path)@, dir@),
{
    let parts = split_on(&chars_of(path.as_str()), ':');
    let d = chars_of(dir);
    let ghost pv = fields(old(path)@, ':');
    let mut i: usize = 0;
    while i < parts.len()
        invariant
            i <= parts.len(),
            views(parts@) == pv,
            pv == fields(old(path)@, ':'),
            path@ == old(path)@,
            d@ == dir@,
            forall|k: int| 0 <= k < i ==> pv[k] != dir@,
        decreases parts.len() - i,
    {
        assert(pv[i as int] == parts@[i as int]@);
        if crate::text::chars_eq(&parts[i], &d) {
            assert(pv.contains(dir@));
            return;
        }
        i = i + 1;
    }
    path.push(':');
    path.append(dir);
}

/// Build a PATH string from the current process PATH (`existing`) and the
/// directories parsed from PATH files, plus the common macOS node/homebrew
/// locations, so that dsh (and the node it resolves) can find its tools.
pub fn augmented_path(existing: String, dirs: &Vec<String>, home: &str) -> (r: String)
    ensures
        r@ == augmented(existing@, string_views(dirs@), home@),
{
    let mut path = existing;
    let ghost start = path@;
    let ghost dv = string_views(dirs@);
    let mut i: usize = 0;
    while i < dirs.len()
        invariant
            i <= dirs.len(),
            dv == string_views(dirs@),
            path@ == with_entries(start, dv.subrange(0, i as int)),
        decreases dirs.len() - i,
    {
        assert(dv.subrange(0, i + 1 as int).drop_last() =~= dv.subrange(0, i as int));
        assert(dv[i as int] == dirs@[i as int]@);
        ensure_entry(&mut path, dirs[i].as_str());
        i = i + 1;
    }
    assert(dv.subrange(0, dirs.len() as int) =~= dv);
    ensure_entry(&mut path, "/opt/homebrew/bin");
    ensure_entry(&mut path, "/usr/local/bin");
    let mut local = String::from_str(home);
    local.append("/.local/bin");
    ensure_entry(&mut path, local.as_str());
    path
}

proof fn lemma_field_scan_append(s: Seq<char>, d: Seq<char>, sep: char)
    requires
        !d.contains(sep),
    ensures
        crate::text::field_scan(s + seq![sep] + d, sep) == (
            crate::text::field_scan(s, sep).0.push(crate::text::field_scan(s, sep).1),
            d,
        ),
    decreases d.len(),
{
    if d.len() == 0 {
        assert(s + seq![sep] + d =~= s.push(sep));
        assert((s + seq![sep] + d).drop_last() =~= s);
    } else {
        assert((s + seq![sep] + d).drop_last() =~= s + seq![sep] + d.drop_last());
        assert(d.last() == d[d.len() - 1]);
        assert forall|i: int| 0 <= i < d.drop_last().len() implies d.drop_last()[i] != sep by {
            assert(d.drop_last()[i] == d[i]);
        }
        lemma_field_scan_append(s, d.drop_last(), sep);
        assert(d.drop_last().push(d.last()) =~= d);
    }
}

proof fn lemma_with_entry(path: Seq<char>, dir: Seq<char>)
    requires
        !dir.contains(':'),
    ensures
        fields(with_entry(path, dir), ':').contains(dir),
        forall|e: Seq<char>| fields(path, ':').contains(e) ==> fields(with_entry(path, dir), ':').contains(e),
        has_prefix(with_entry(path, dir), path),
{
    if !fields(path, ':').contains(dir) {
        lemma_field_scan_append(path, dir, ':');
        let f = fields(path, ':');
        assert(fields(with_entry(path, dir), ':') =~= f.push(dir));
        assert(fields(with_entry(path, dir), ':')[f.len() as int] == dir);
        assert forall|e: Seq<char>| f.contains(e) implies f.push(dir).contains(e) by {
            let i = choose|i: int| 0 <= i < f.len() && f[i] == e;
            assert(f.push(dir)[i] == e);
        }
    }
    assert(with_entry(path, dir).subrange(0, path.len() as int) =~= path);
}

proof fn lemma_with_entries(path: Seq<char>, dirs: Seq<Seq<char>>)
    requires
        forall|i: int| 0 <= i < dirs.len() ==> !(#[trigger] dirs[i]).contains(':'),
    ensures
        forall|i: int| 0 <= i < dirs.len() ==> fields(with_entries(path, dirs), ':').contains(#[trigger] dirs[i]),
        forall|e: Seq<char>| fields(path, ':').contains(e) ==> fields(with_entries(path, dirs), ':').contains(e),
        has_prefix(with_entries(path, dirs), path),
    decreases dirs.len(),
{
    if dirs.len() > 0 {
        let d = dirs.drop_last();
        assert forall|i: int| 0 <= i < d.len() implies !(#[trigger] d[i]).contains(':') by {
            assert(d[i] == dirs[i]);
        }
        lemma_with_entries(path, d);
        let p = with_entries(path, d);
        assert(dirs.last() == dirs[dirs.len() - 1]);
        lemma_with_entry(p, dirs.last());
        assert forall|i: int| 0 <= i < dirs.len() implies fields(with_entries(path, dirs), ':').contains(
            #[trigger] dirs[i],
        ) by {
            if i < d.len() {
                assert(d[i] == dirs[i]);
            }
        }
        let q = with_entries(path, dirs);
        assert(q.subrange(0, p.len() as int) == p);
        assert(q.subrange(0, path.len() as int) =~= q.subrange(0, p.len() as int).subrange(
            0,
            path.len() as int,
        ));
        assert(p.subrange(0, path.len() as int) == path);
    } else {
        assert(path.subrange(0, path.len() as int) =~= path);
    }
}

/// Scanning further never drops a field already finished.
proof fn lemma_field_scan_grows(s: Seq<char>, t: Seq<char>, sep: char)
    ensures
        field_scan(s, sep).0.len() <= field_scan(s + t, sep).0.len(),
        forall|i: int|
            0 <= i < field_scan(s, sep).0.len() ==> field_scan(s + t, sep).0[i] == #[trigger] field_scan(
                s,
                sep,
            ).0[i],
    decreases t.len(),
{
    if t.len() == 0 {
        assert(s + t =~= s);
    } else {
        lemma_field_scan_grows(s, t.drop_last(), sep);
        assert((s + t).drop_last() =~= s + t.drop_last());
        assert((s + t).last() == t.last());
    }
}

/// Appending an entry keeps every entry `path` had, and `path` itself as a
/// prefix, whatever the appended directory is.
proof fn lemma_with_entry_keeps(path: Seq<char>, dir: Seq<char>)
    ensures
        forall|e: Seq<char>| fields(path, ':').contains(e) ==> fields(with_entry(path, dir), ':').contains(e),
        has_prefix(with_entry(path, dir), path),
{
    if !fields(path, ':').contains(dir) {
        let s1 = path.push(':');
        assert(s1.drop_last() =~= path);
        let f = fields(path, ':');
        assert(field_scan(s1, ':').0 == f);
        assert(s1 + dir =~= path + seq![':'] + dir);
        lemma_field_scan_grows(s1, dir, ':');
        let g = fields(with_entry(path, dir), ':');
        assert forall|e: Seq<char>| f.contains(e) implies g.contains(e) by {
            let i = choose|i: int| 0 <= i < f.len() && f[i] == e;
            assert(field_scan(s1, ':').0[i] == e);
            assert(g[i] == e);
        }
    }
    assert(with_entry(path, dir).subrange(0, path.len() as int) =~= path);
}

proof fn lemma_with_entries_keeps(path: Seq<char>, dirs: Seq<Seq<char>>)
    ensures
        forall|e: Seq<char>| fields(path, ':').contains(e) ==> fields(with_entries(path, dirs), ':').contains(e),
        has_prefix(with_entries(path, dirs), path),
    decreases dirs.len(),
{
    if dirs.len() > 0 {
        let d = dirs.drop_last();
        lemma_with_entries_keeps(path, d);
        let p = with_entries(path, d);
        lemma_with_entry_keeps(p, dirs.last());
        let q = with_entries(path, dirs);
        assert(q.subrange(0, path.len() as int) =~= q.subrange(0, p.len() as int).subrange(
            0,
            path.len() as int,
        ));
    } else {
        assert(path.subrange(0, path.len() as int) =~= path);
    }
}

/// The spawn PATH starts with the current PATH, loses none of its entries,
/// and always has `/opt/homebrew/bin` and `/usr/local/bin` as entries. It has
/// `<home>/.local/bin` as an entry when `home` has no `:`, and every parsed
/// directory when none of them has a `:` (a directory with a `:` cannot be a
/// single entry).
pub proof fn augmented_path_has_entries(existing: Seq<char>, dirs: Seq<Seq<char>>, home: Seq<char>)
    ensures
        has_prefix(augmented(existing, dirs, home), existing),
        forall|e: Seq<char>| fields(existing, ':').contains(e) ==> fields(augmented(existing, dirs, home), ':').contains(e),
        fields(augmented(existing, dirs, home), ':').contains("/opt/homebrew/bin"@),
        fields(augmented(existing, dirs, home), ':').contains("/usr/local/bin"@),
        !home.contains(':') ==> fields(augmented(existing, dirs, home), ':').contains(home + "/.local/bin"@),
        (forall|i: int| 0 <= i < dirs.len() ==> !(#[trigger] dirs[i]).contains(':')) ==> forall|i: int|
            0 <= i < dirs.len() ==> fields(augmented(existing, dirs, home), ':').contains(#[trigger] dirs[i]),
{
    reveal_strlit("/opt/homebrew/bin");
    reveal_strlit("/usr/local/bin");
    reveal_strlit("/.local/bin");
    let p0 = with_entries(existing, dirs);
    lemma_with_entries_keeps(existing, dirs);
    if forall|i: int| 0 <= i < dirs.len() ==> !(#[trigger] dirs[i]).contains(':') {
        lemma_with_entries(existing, dirs);
    }
    assert(!"/opt/homebrew/bin"@.contains(':'));
    lemma_with_entry(p0, "/opt/homebrew/bin"@);
    let p1 = with_entry(p0, "/opt/homebrew/bin"@);
    assert(!"/usr/local/bin"@.contains(':'));
    lemma_with_entry(p1, "/usr/local/bin"@);
    let p2 = with_entry(p1, "/usr/local/bin"@);
    let l = home + "/.local/bin"@;
    lemma_with_entry_keeps(p2, l);
    if !home.contains(':') {
        assert forall|i: int| 0 <= i < l.len() implies l[i] != ':' by {
            if i < home.len() {
                assert(l[i] == home[i]);
            } else {
                assert(l[i] == "/.local/bin"@[i - home.len()]);
            }
        }
        lemma_with_entry(p2, l);
    }
    let p3 = with_entry(p2, l);
    assert(p3.subrange(0, existing.len() as int) =~= p2.subrange(0, p1.len() as int).subrange(
        0,
        p0.len() as int,
    ).subrange(0, existing.len() as int));
}

// ---------------------------------------------------------------------------
// The location pass
// ---------------------------------------------------------------------------
/// The tier being searched.
#[derive(Debug, Clone, Copy, PartialEq, Eq, Structural)]
pub enum Tier {
    Explicit,
    Scan,
    PathFiles,
    Zsh,
    Done,
}

/// What the location pass waits for.
#[derive(Debug, Clone, Copy, PartialEq, Eq, Structural)]
pub enum Awaiting {
    Start,
    FileCheck,
    Shebang,
    Interpreter,
    Version,
    PathDirs,
    ZshPath,
    Nothing,
}

/// The candidate being looked at.
#[derive(Debug)]
pub struct Pending {
    pub executable: String,
    pub node: Option<String>,
    pub source: Source,
}

/// What the caller reports back.
#[derive(Debug)]
pub enum LocateEvent {
    /// Begin (or resume) the pass.
    Start,
    /// Whether the executable of `CheckFile` is a regular file.
    IsFile(bool),
    /// What the executable's shebang leads to (`shebang_lookup`; `NoInterpreter`
    /// when it cannot be read).
    Shebang(ShebangLookup),
    /// For each path of `CheckInterpreters`, whether it is a regular file.
    InterpreterFiles(Vec<bool>),
    /// The version the executable reports (`detect_version`).
    Version(Option<String>),
    /// The directories parsed from the PATH files (`parse_path_files`).
    PathDirs(Vec<String>),
    /// What `zsh -lic 'command -v dsh'` printed (`zsh_login_locate`).
    ZshFound(Option<String>),
}

/// What the caller does next.
#[derive(Debug)]
pub enum LocateAction {
    /// Check whether `executable` is a regular file, report `IsFile`.
    CheckFile(String),
    /// Read the executable's shebang, report `Shebang`.
    ReadShebang(String),
    /// Check which of these paths are regular files, report `InterpreterFiles`.
    CheckInterpreters(Vec<String>),
    /// Run `<node> <executable> --version` (or the executable alone), report `Version`.
    DetectVersion { executable: String, node: Option<String> },
    /// Read the PATH files, report `PathDirs`.
    ReadPathFiles,
    /// Ask a login zsh for `dsh`, report `ZshFound`.
    AskZsh,
    /// The pass is over.
    Finish(LocateOutcome),
}

/// The state of one location pass: the tier being searched, the executables
/// of that tier still to look at, and the candidates found so far.
pub struct Locator {
    pub settings_node: Option<String>,
    pub scan_queue: Vec<String>,
    pub tier: Tier,
    pub queue: Vec<String>,
    pub next: usize,
    pub pending: Option<Pending>,
    pub awaiting: Awaiting,
    pub candidates: Vec<DshCandidate>,
    /// The paths the pending executable's interpreter is looked up at.
    pub interpreters: Vec<String>,
    /// The executables reported to be regular files so far.
    pub confirmed: Ghost<Set<Seq<char>>>,
}

/// The executable Tier 0 looks at: the settings' `dsh_path`, with `~`
/// resolved when it is not absolute.
pub open spec fn explicit_executable(settings: AppSettings, home: Seq<char>) -> Option<Seq<char>> {
    match settings.dsh_path {
        Some(p) => Some(if is_absolute(p@) {
            p@
        } else {
            expanded(p@, home)
        }),
        None => None,
    }
}

/// The source a tier's candidates come from.
pub open spec fn tier_source(t: Tier) -> Source {
    match t {
        Tier::Explicit => Source::UserSpecified,
        Tier::Scan => Source::Scanned,
        Tier::PathFiles => Source::PathFile,
        _ => Source::ZshLogin,
    }
}

/// Whether a tier skips executables already found.
pub open spec fn tier_skips_known(t: Tier) -> bool {
    t == Tier::PathFiles || t == Tier::Zsh
}

/// `o` reports `cands`, the first of them as the primary candidate.
pub open spec fn reports(o: LocateOutcome, cands: Seq<DshCandidate>) -> bool {
    &&& o.candidates@ == cands
    &&& o.primary == (if cands.len() > 0 {
        Some(cands[0])
    } else {
        None
    })
}

/// `t` and `a` are what continuing the current tier of `s` (nothing pending)
/// leads to: the next executable of the queue is checked (in Tiers 2 and 3
/// one already found is skipped); an exhausted queue ends the tier.
pub open spec fn continues(s: Locator, t: Locator, a: LocateAction) -> bool
    decreases (if s.tier == Tier::Explicit { 1int } else { 0int }), (if s.next < s.queue.len() {
        s.queue.len() - s.next
    } else {
        0
    }),
{
    if s.next < s.queue.len() {
        let exec = s.queue@[s.next as int];
        let s1 = Locator { next: (s.next + 1) as usize, ..s };
        if tier_skips_known(s.tier) && executables(s.candidates@).contains(exec@) {
            continues(s1, t, a)
        } else {
            &&& t == Locator {
                pending: Some(
                    Pending {
                        executable: exec,
                        node: if s.tier == Tier::Explicit {
                            s.settings_node
                        } else {
                            None
                        },
                        source: tier_source(s.tier),
                    },
                ),
                awaiting: Awaiting::FileCheck,
                ..s1
            }
            &&& a == LocateAction::CheckFile(exec)
        }
    } else {
        match s.tier {
            Tier::Explicit => if s.candidates@.len() > 0 {
                &&& t == Locator { tier: Tier::Done, awaiting: Awaiting::Nothing, ..s }
                &&& a matches LocateAction::Finish(o) && reports(o, s.candidates@)
            } else {
                continues(
                    Locator { tier: Tier::Scan, queue: s.scan_queue, scan_queue: s.queue, next: 0, ..s },
                    t,
                    a,
                )
            },
            Tier::Scan => {
                &&& t == Locator { tier: Tier::PathFiles, awaiting: Awaiting::PathDirs, ..s }
                &&& a == LocateAction::ReadPathFiles
            },
            Tier::PathFiles => {
                &&& t == Locator { tier: Tier::Zsh, awaiting: Awaiting::ZshPath, ..s }
                &&& a == LocateAction::AskZsh
            },
            _ => {
                &&& t.candidates@ == sorted_candidates(first_occurrences(s.candidates@))
                &&& t == Locator { tier: Tier::Done, awaiting: Awaiting::Nothing, candidates: t.candidates, ..s }
                &&& a matches LocateAction::Finish(o) && reports(o, t.candidates@)
            },
        }
    }
}

/// The action `s` waits on, asked again.
pub open spec fn repeats(s: Locator, a: LocateAction) -> bool {
    match (s.awaiting, s.pending) {
        (Awaiting::FileCheck, Some(p)) => a == LocateAction::CheckFile(p.executable),
        (Awaiting::Shebang, Some(p)) => a == LocateAction::ReadShebang(p.executable),
        (Awaiting::Interpreter, Some(p)) => a matches LocateAction::CheckInterpreters(c) && string_views(
            c@,
        ) == string_views(s.interpreters@),
        (Awaiting::Version, Some(p)) => a == LocateAction::DetectVersion {
            executable: p.executable,
            node: p.node,
        },
        (Awaiting::PathDirs, _) => a == LocateAction::ReadPathFiles,
        (Awaiting::ZshPath, _) => a == LocateAction::AskZsh,
        _ => a matches LocateAction::Finish(o) && reports(o, s.candidates@),
    }
}

/// One step of the location pass: `s` receives `e` and becomes `t`, asking
/// for `a`. An event the state does not wait for leaves it unchanged and
/// repeats what it waits for.
pub open spec fn locate_step(s: Locator, e: LocateEvent, t: Locator, a: LocateAction) -> bool {
    match (s.awaiting, e) {
        (Awaiting::Start, _) => continues(s, t, a),
        (Awaiting::FileCheck, LocateEvent::IsFile(false)) => continues(
            Locator { pending: None, awaiting: Awaiting::Start, ..s },
            t,
            a,
        ),
        (Awaiting::FileCheck, LocateEvent::IsFile(true)) => match s.pending {
            Some(p) => match p.node {
                Some(n) => t == Locator {
                    awaiting: Awaiting::Version,
                    confirmed: Ghost(s.confirmed@.insert(p.executable@)),
                    ..s
                } && a == LocateAction::DetectVersion { executable: p.executable, node: Some(n) },
                None => t == Locator {
                    awaiting: Awaiting::Shebang,
                    confirmed: Ghost(s.confirmed@.insert(p.executable@)),
                    ..s
                } && a == LocateAction::ReadShebang(p.executable),
            },
            None => t == s && repeats(s, a),
        },
        (Awaiting::Shebang, LocateEvent::Shebang(lookup)) => match s.pending {
            Some(p) => match lookup {
                ShebangLookup::NoInterpreter => t == Locator {
                    pending: Some(Pending { node: None, ..p }),
                    awaiting: Awaiting::Version,
                    ..s
                } && a == LocateAction::DetectVersion { executable: p.executable, node: None },
                ShebangLookup::Found(f) => t == Locator {
                    pending: Some(Pending { node: Some(f), ..p }),
                    awaiting: Awaiting::Version,
                    ..s
                } && a == LocateAction::DetectVersion { executable: p.executable, node: Some(f) },
                ShebangLookup::Search(c) => t == Locator {
                    interpreters: c,
                    awaiting: Awaiting::Interpreter,
                    ..s
                } && (a matches LocateAction::CheckInterpreters(c2) && string_views(c2@)
                    == string_views(c@)),
            },
            None => t == s && repeats(s, a),
        },
        (Awaiting::Interpreter, LocateEvent::InterpreterFiles(flags)) => match s.pending {
            Some(p) => if flags.len() == s.interpreters.len() {
                exists|n: Option<String>|
                    {
                        &&& opt_chars(n) == first_selected(string_views(s.interpreters@), flags@)
                        &&& t == Locator {
                            pending: Some(Pending { node: n, ..p }),
                            awaiting: Awaiting::Version,
                            ..s
                        }
                        &&& a == LocateAction::DetectVersion { executable: p.executable, node: n }
                    }
            } else {
                t == s && repeats(s, a)
            },
            None => t == s && repeats(s, a),
        },
        (Awaiting::Version, LocateEvent::Version(v)) => match s.pending {
            Some(p) => exists|c: DshCandidate, cs: Vec<DshCandidate>|
                {
                    &&& c.executable == p.executable
                    &&& c.node == p.node
                    &&& c.source == p.source
                    &&& c.version@ == (match v {
                        Some(x) => x@,
                        None => "unknown"@,
                    })
                    &&& cs@ == s.candidates@.push(c)
                    &&& continues(
                        Locator { pending: None, awaiting: Awaiting::Start, candidates: cs, ..s },
                        t,
                        a,
                    )
                },
            None => t == s && repeats(s, a),
        },
        (Awaiting::PathDirs, LocateEvent::PathDirs(dirs)) => exists|q: Vec<String>|
            string_views(q@) == dsh_in(string_views(dirs@)) && continues(
                Locator { queue: q, next: 0, awaiting: Awaiting::Start, ..s },
                t,
                a,
            ),
        (Awaiting::ZshPath, LocateEvent::ZshFound(found)) => exists|q: Vec<String>|
            string_views(q@) == (match found {
                Some(x) => seq![x@],
                None => seq![],
            }) && continues(Locator { queue: q, next: 0, awaiting: Awaiting::Start, ..s }, t, a),
        _ => t == s && repeats(s, a),
    }
}

/// The user's explicit dsh wins: once Tier 0 has the version of the path
/// from the settings, the pass ends there, with that candidate as the
/// primary one, and no other tier is searched.
pub proof fn explicit_dsh_wins(s: Locator, v: Option<String>, t: Locator, a: LocateAction)
    requires
        s.tier == Tier::Explicit,
        s.awaiting == Awaiting::Version,
        s.pending matches Some(p) && p.source == Source::UserSpecified,
        s.next >= s.queue.len(),
        s.candidates@.len() == 0,
        locate_step(s, LocateEvent::Version(v), t, a),
    ensures
        t.tier == Tier::Done,
        a matches LocateAction::Finish(o) && (o.primary matches Some(c) && c.source
            == Source::UserSpecified && c.executable == s.pending->0.executable),
{
    let p = s.pending->0;
    let (c, cs) = choose|c: DshCandidate, cs: Vec<DshCandidate>|
        {
            &&& c.executable == p.executable
            &&& c.node == p.node
            &&& c.source == p.source
            &&& c.version@ == (match v {
                Some(x) => x@,
                None => "unknown"@,
            })
            &&& cs@ == s.candidates@.push(c)
            &&& continues(
                Locator { pending: None, awaiting: Awaiting::Start, candidates: cs, ..s },
                t,
                a,
            )
        };
    assert(cs@[0] == c);
}

/// When the last tier ends, the pass reports every executable it found once,
/// best first (most trusted source, then highest version), the first of
/// them as the primary candidate.
pub proof fn full_pass_reports_best_first(s: Locator, t: Locator, a: LocateAction)
    requires
        s.tier == Tier::Zsh,
        s.next >= s.queue.len(),
        continues(s, t, a),
    ensures
        a matches LocateAction::Finish(o) && {
            &&& crate::candidate::executables(o.candidates@).no_duplicates()
            &&& crate::candidate::executables(o.candidates@).to_set()
                == crate::candidate::executables(s.candidates@).to_set()
            &&& crate::candidate::is_best_first(o.candidates@)
            &&& o.primary == (if o.candidates@.len() > 0 {
                Some(o.candidates@[0])
            } else {
                None
            })
        },
{
    crate::candidate::reported_candidates_distinct_and_best_first(s.candidates@);
}

/// No candidate, found or being looked at, comes from the settings, and
/// Tier 0 has nothing left to look at: what a pass without a `dsh_path`
/// starts from.
pub open spec fn none_user_specified(s: Locator) -> bool {
    &&& forall|i: int|
        0 <= i < s.candidates@.len() ==> (#[trigger] s.candidates@[i]).source != Source::UserSpecified
    &&& (s.pending matches Some(p) ==> p.source != Source::UserSpecified)
    &&& (s.tier == Tier::Explicit ==> s.next >= s.queue.len() && s.awaiting == Awaiting::Start)
}

/// The candidates an outcome reports, none from the settings.
pub open spec fn reports_none_user_specified(a: LocateAction) -> bool {
    a matches LocateAction::Finish(o) ==> forall|i: int|
        0 <= i < o.candidates@.len() ==> (#[trigger] o.candidates@[i]).source != Source::UserSpecified
}

proof fn lemma_continues_none_user_specified(s: Locator, t: Locator, a: LocateAction)
    requires
        none_user_specified(s),
        continues(s, t, a),
    ensures
        none_user_specified(t),
        t.tier != Tier::Explicit,
        reports_none_user_specified(a),
    decreases (if s.tier == Tier::Explicit { 1int } else { 0int }), (if s.next < s.queue.len() {
        s.queue.len() - s.next
    } else {
        0
    }),
{
    if s.next < s.queue.len() {
        let exec = s.queue@[s.next as int];
        let s1 = Locator { next: (s.next + 1) as usize, ..s };
        if tier_skips_known(s.tier) && executables(s.candidates@).contains(exec@) {
            lemma_continues_none_user_specified(s1, t, a);
        }
    } else {
        match s.tier {
            Tier::Explicit => if s.candidates@.len() == 0 {
                let s2 = Locator {
                    tier: Tier::Scan,
                    queue: s.scan_queue,
                    scan_queue: s.queue,
                    next: 0,
                    ..s
                };
                lemma_continues_none_user_specified(s2, t, a);
            },
            Tier::Scan => {},
            Tier::PathFiles => {},
            _ => {
                let p = |c: DshCandidate| c.source != Source::UserSpecified;
                assert forall|i: int| 0 <= i < s.candidates@.len() implies p(
                    #[trigger] s.candidates@[i],
                ) by {}
                crate::candidate::reported_candidates_come_from_found(s.candidates@, p);
            },
        }
    }
}

/// Without a `dsh_path` in the settings no candidate is ever user-specified:
/// a pass that starts from such a state (as `locate` does without one) keeps
/// to it at every step, and its outcome reports none.
pub proof fn no_user_specified_without_dsh_path(
    s: Locator,
    e: LocateEvent,
    t: Locator,
    a: LocateAction,
)
    requires
        none_user_specified(s),
        locate_step(s, e, t, a),
    ensures
        none_user_specified(t),
        reports_none_user_specified(a),
{
    match (s.awaiting, e) {
        (Awaiting::Start, _) => {
            lemma_continues_none_user_specified(s, t, a);
        },
        (Awaiting::FileCheck, LocateEvent::IsFile(false)) => {
            lemma_continues_none_user_specified(
                Locator { pending: None, awaiting: Awaiting::Start, ..s },
                t,
                a,
            );
        },
        (Awaiting::Interpreter, LocateEvent::InterpreterFiles(flags)) => {
            if let Some(p) = s.pending {
                if flags.len() == s.interpreters.len() {
                    let n = choose|n: Option<String>|
                        {
                            &&& opt_chars(n) == first_selected(
                                string_views(s.interpreters@),
                                flags@,
                            )
                            &&& t == Locator {
                                pending: Some(Pending { node: n, ..p }),
                                awaiting: Awaiting::Version,
                                ..s
                            }
                            &&& a == LocateAction::DetectVersion { executable: p.executable, node: n }
                        };
                }
            }
        },
        (Awaiting::Version, LocateEvent::Version(v)) => {
            if let Some(p) = s.pending {
                let (c, cs) = choose|c: DshCandidate, cs: Vec<DshCandidate>|
                    {
                        &&& c.executable == p.executable
                        &&& c.node == p.node
                        &&& c.source == p.source
                        &&& c.version@ == (match v {
                            Some(x) => x@,
                            None => "unknown"@,
                        })
                        &&& cs@ == s.candidates@.push(c)
                        &&& continues(
                            Locator { pending: None, awaiting: Awaiting::Start, candidates: cs, ..s },
                            t,
                            a,
                        )
                    };
                let m = Locator { pending: None, awaiting: Awaiting::Start, candidates: cs, ..s };
                assert forall|i: int| 0 <= i < m.candidates@.len() implies (
                #[trigger] m.candidates@[i]).source != Source::UserSpecified by {
                    if i < s.candidates@.len() {
                        assert(m.candidates@[i] == s.candidates@[i]);
                    }
                }
                lemma_continues_none_user_specified(m, t, a);
            }
        },
        (Awaiting::PathDirs, LocateEvent::PathDirs(dirs)) => {
            let q = choose|q: Vec<String>|
                string_views(q@) == dsh_in(string_views(dirs@)) && continues(
                    Locator { queue: q, next: 0, awaiting: Awaiting::Start, ..s },
                    t,
                    a,
                );
            lemma_continues_none_user_specified(
                Locator { queue: q, next: 0, awaiting: Awaiting::Start, ..s },
                t,
                a,
            );
        },
        (Awaiting::ZshPath, LocateEvent::ZshFound(found)) => {
            let q = choose|q: Vec<String>|
                string_views(q@) == (match found {
                    Some(x) => seq![x@],
                    None => seq![],
                }) && continues(Locator { queue: q, next: 0, awaiting: Awaiting::Start, ..s }, t, a);
            lemma_continues_none_user_specified(
                Locator { queue: q, next: 0, awaiting: Awaiting::Start, ..s },
                t,
                a,
            );
        },
        _ => {},
    }
}

/// When the executable named by the settings' `dsh_path` is not a file, the
/// pass goes on as one without a `dsh_path`: Tier 0 is over and no candidate
/// is user-specified from then on (`no_user_specified_without_dsh_path`).
pub proof fn explicit_path_not_found_falls_back(s: Locator, t: Locator, a: LocateAction)
    requires
        s.tier == Tier::Explicit,
        s.awaiting == Awaiting::FileCheck,
        s.next >= s.queue.len(),
        s.candidates@.len() == 0,
        locate_step(s, LocateEvent::IsFile(false), t, a),
    ensures
        t.tier != Tier::Explicit,
        none_user_specified(t),
        reports_none_user_specified(a),
{
    let m = Locator { pending: None, awaiting: Awaiting::Start, ..s };
    assert(none_user_specified(m));
    lemma_continues_none_user_specified(m, t, a);
}

/// Every candidate, and the executable being looked at once it passed its
/// file check, was reported to be a regular file.
pub open spec fn only_found_files(s: Locator) -> bool {
    &&& forall|i: int|
        0 <= i < s.candidates@.len() ==> s.confirmed@.contains((#[trigger] s.candidates@[i]).executable@)
    &&& (s.pending matches Some(p) ==> ((s.awaiting == Awaiting::Shebang || s.awaiting
        == Awaiting::Interpreter || s.awaiting == Awaiting::Version) ==> s.confirmed@.contains(
        p.executable@,
    )))
}

/// The candidates an outcome reports were all reported to be regular files.
pub open spec fn reports_found_files(a: LocateAction, confirmed: Set<Seq<char>>) -> bool {
    a matches LocateAction::Finish(o) ==> forall|i: int|
        0 <= i < o.candidates@.len() ==> confirmed.contains((#[trigger] o.candidates@[i]).executable@)
}

proof fn lemma_continues_found_files(s: Locator, t: Locator, a: LocateAction)
    requires
        only_found_files(s),
        continues(s, t, a),
    ensures
        only_found_files(t),
        t.confirmed == s.confirmed,
        reports_found_files(a, t.confirmed@),
    decreases (if s.tier == Tier::Explicit { 1int } else { 0int }), (if s.next < s.queue.len() {
        s.queue.len() - s.next
    } else {
        0
    }),
{
    if s.next < s.queue.len() {
        let exec = s.queue@[s.next as int];
        let s1 = Locator { next: (s.next + 1) as usize, ..s };
        if tier_skips_known(s.tier) && executables(s.candidates@).contains(exec@) {
            lemma_continues_found_files(s1, t, a);
        }
    } else {
        match s.tier {
            Tier::Explicit => if s.candidates@.len() == 0 {
                let s2 = Locator {
                    tier: Tier::Scan,
                    queue: s.scan_queue,
                    scan_queue: s.queue,
                    next: 0,
                    ..s
                };
                lemma_continues_found_files(s2, t, a);
            },
            Tier::Scan => {},
            Tier::PathFiles => {},
            _ => {
                let conf = s.confirmed@;
                let p = |c: DshCandidate| conf.contains(c.executable@);
                assert forall|i: int| 0 <= i < s.candidates@.len() implies p(
                    #[trigger] s.candidates@[i],
                ) by {}
                crate::candidate::reported_candidates_come_from_found(s.candidates@, p);
            },
        }
    }
}

/// A pass reports only executables that were reported to be regular files:
/// a candidate is added only for an executable that passed its file check,
/// each step keeps that so, and the outcome's candidates are among them.
pub proof fn reported_executables_were_found(
    s: Locator,
    e: LocateEvent,
    t: Locator,
    a: LocateAction,
)
    requires
        only_found_files(s),
        locate_step(s, e, t, a),
    ensures
        only_found_files(t),
        s.confirmed@.subset_of(t.confirmed@),
        reports_found_files(a, t.confirmed@),
{
    match (s.awaiting, e) {
        (Awaiting::Start, _) => {
            lemma_continues_found_files(s, t, a);
        },
        (Awaiting::FileCheck, LocateEvent::IsFile(false)) => {
            lemma_continues_found_files(
                Locator { pending: None, awaiting: Awaiting::Start, ..s },
                t,
                a,
            );
        },
        (Awaiting::FileCheck, LocateEvent::IsFile(true)) => {
            if let Some(p) = s.pending {
                assert forall|i: int| 0 <= i < t.candidates@.len() implies t.confirmed@.contains(
                    (#[trigger] t.candidates@[i]).executable@,
                ) by {
                    assert(s.confirmed@.contains(s.candidates@[i].executable@));
                }
            }
        },
        (Awaiting::Interpreter, LocateEvent::InterpreterFiles(flags)) => {
            if let Some(p) = s.pending {
                if flags.len() == s.interpreters.len() {
                    let n = choose|n: Option<String>|
                        {
                            &&& opt_chars(n) == first_selected(
                                string_views(s.interpreters@),
                                flags@,
                            )
                            &&& t == Locator {
                                pending: Some(Pending { node: n, ..p }),
                                awaiting: Awaiting::Version,
                                ..s
                            }
                            &&& a == LocateAction::DetectVersion { executable: p.executable, node: n }
                        };
                }
            }
        },
        (Awaiting::Version, LocateEvent::Version(v)) => {
            if let Some(p) = s.pending {
                let (c, cs) = choose|c: DshCandidate, cs: Vec<DshCandidate>|
                    {
                        &&& c.executable == p.executable
                        &&& c.node == p.node
                        &&& c.source == p.source
                        &&& c.version@ == (match v {
                            Some(x) => x@,
                            None => "unknown"@,
                        })
                        &&& cs@ == s.candidates@.push(c)
                        &&& continues(
                            Locator { pending: None, awaiting: Awaiting::Start, candidates: cs, ..s },
                            t,
                            a,
                        )
                    };
                let m = Locator { pending: None, awaiting: Awaiting::Start, candidates: cs, ..s };
                assert forall|i: int| 0 <= i < m.candidates@.len() implies m.confirmed@.contains(
                    (#[trigger] m.candidates@[i]).executable@,
                ) by {
                    if i < s.candidates@.len() {
                        assert(m.candidates@[i] == s.candidates@[i]);
                    }
                }
                lemma_continues_found_files(m, t, a);
            }
        },
        (Awaiting::PathDirs, LocateEvent::PathDirs(dirs)) => {
            let q = choose|q: Vec<String>|
                string_views(q@) == dsh_in(string_views(dirs@)) && continues(
                    Locator { queue: q, next: 0, awaiting: Awaiting::Start, ..s },
                    t,
                    a,
                );
            lemma_continues_found_files(
                Locator { queue: q, next: 0, awaiting: Awaiting::Start, ..s },
                t,
                a,
            );
        },
        (Awaiting::ZshPath, LocateEvent::ZshFound(found)) => {
            let q = choose|q: Vec<String>|
                string_views(q@) == (match found {
                    Some(x) => seq![x@],
                    None => seq![],
                }) && continues(Locator { queue: q, next: 0, awaiting: Awaiting::Start, ..s }, t, a);
            lemma_continues_found_files(
                Locator { queue: q, next: 0, awaiting: Awaiting::Start, ..s },
                t,
                a,
            );
        },
        _ => {},
    }
}

/// `<dir>/dsh` for each of `dirs`.
pub fn dsh_paths(dirs: &Vec<String>) -> (r: Vec<String>)
    ensures
        string_views(r@) == dsh_in(string_views(dirs@)),
{
    let mut q: Vec<String> = Vec::new();
    let ghost dv = string_views(dirs@);
    let mut i: usize = 0;
    while i < dirs.len()
        invariant
            i <= dirs.len(),
            dv == string_views(dirs@),
            string_views(q@) == dsh_in(dv.subrange(0, i as int)),
        decreases dirs.len() - i,
    {
        assert(dv[i as int] == dirs@[i as int]@);
        let p = path_join(dirs[i].as_str(), "dsh");
        let ghost old_q = string_views(q@);
        q.push(p);
        assert(string_views(q@) =~= old_q.push(p@));
        assert(dv.subrange(0, i + 1 as int) =~= dv.subrange(0, i as int).push(dv[i as int]));
        assert(dsh_in(dv.subrange(0, i + 1 as int)) =~= dsh_in(dv.subrange(0, i as int)).push(
            joined(dv[i as int], "dsh"@),
        ));
        i = i + 1;
    }
    assert(dv.subrange(0, dirs.len() as int) =~= dv);
    q
}

/// A copy of a list of strings.
pub fn copy_strings(v: &Vec<String>) -> (r: Vec<String>)
    ensures
        string_views(r@) == string_views(v@),
{
    let mut r: Vec<String> = Vec::new();
    let mut i: usize = 0;
    while i < v.len()
        invariant
            i <= v.len(),
            string_views(r@) == string_views(v@).subrange(0, i as int),
        decreases v.len() - i,
    {
        let ghost before = string_views(r@);
        r.push(v[i].clone());
        assert(string_views(r@) =~= before.push(v@[i as int]@));
        assert(string_views(v@).subrange(0, i + 1 as int) =~= string_views(v@).subrange(0, i as int).push(v@[i as int]@));
        i = i + 1;
    }
    assert(string_views(v@).subrange(0, v.len() as int) =~= string_views(v@));
    r
}

/// A copy of a list of candidates.
pub fn clone_candidates(v: &Vec<DshCandidate>) -> (r: Vec<DshCandidate>)
    ensures
        r@ == v@,
{
    let mut r: Vec<DshCandidate> = Vec::new();
    let mut i: usize = 0;
    while i < v.len()
        invariant
            i <= v.len(),
            r@ == v@.subrange(0, i as int),
        decreases v.len() - i,
    {
        r.push(v[i].clone());
        i = i + 1;
        assert(r@ =~= v@.subrange(0, i as int));
    }
    assert(v@.subrange(0, v.len() as int) =~= v@);
    r
}

/// The outcome reporting `cands`, the first of them as the primary candidate.
pub fn outcome_of(cands: &Vec<DshCandidate>) -> (o: LocateOutcome)
    ensures
        reports(o, cands@),
{
    let primary = if cands.len() > 0 {
        Some(cands[0].clone())
    } else {
        None
    };
    LocateOutcome { primary, candidates: clone_candidates(cands) }
}

impl Locator {
    /// A location pass for the given settings and home directory.
    pub fn new(settings: &AppSettings, home: &str) -> (l: Locator)
        ensures
            l.confirmed@ == Set::<Seq<char>>::empty(),
            only_found_files(l),
            settings.dsh_path is None ==> none_user_specified(l),
            l.tier == Tier::Explicit,
            l.awaiting == Awaiting::Start,
            l.next == 0,
            l.pending is None,
            l.candidates@ == Seq::<DshCandidate>::empty(),
            l.settings_node == settings.node_path,
            string_views(l.queue@) == (match explicit_executable(*settings, home@) {
                Some(e) => seq![e],
                None => seq![],
            }),
            string_views(l.scan_queue@) == dsh_in(
                scan_dir_list().map_values(|d: Seq<char>| expanded(d, home@)),
            ),
    {
        let mut queue: Vec<String> = Vec::new();
        match &settings.dsh_path {
            Some(p) => {
                let exec = if crate::paths::path_is_absolute(p.as_str()) {
                    p.clone()
                } else {
                    expand_home(p.as_str(), home)
                };
                queue.push(exec);
            },
            None => {},
        }
        assert(string_views(queue@) =~= (match explicit_executable(*settings, home@) {
            Some(e) => seq![e],
            None => seq![],
        }));
        let dirs = scan_dirs(home);
        let scan_queue = dsh_paths(&dirs);
        Locator {
            settings_node: clone_opt_string(&settings.node_path),
            scan_queue,
            tier: Tier::Explicit,
            queue,
            next: 0,
            pending: None,
            awaiting: Awaiting::Start,
            candidates: Vec::new(),
            interpreters: Vec::new(),
            confirmed: Ghost(Set::empty()),
        }
    }

    /// Continue the current tier: check the next executable or end the tier.
    fn continue_tier(&mut self) -> (a: LocateAction)
        ensures
            continues(*old(self), *final(self), a),
    {
        loop
            invariant
                forall|t: Locator, a: LocateAction|
                    continues(*self, t, a) ==> continues(*old(self), t, a),
            decreases (if self.tier == Tier::Explicit {
                1int
            } else {
                0int
            }), (if self.next < self.queue.len() {
                self.queue.len() - self.next
            } else {
                0
            }),
        {
            if self.next < self.queue.len() {
                let exec = self.queue[self.next].clone();
                let ghost s = *self;
                self.next = self.next + 1;
                let skips = self.tier == Tier::PathFiles || self.tier == Tier::Zsh;
                if skips && has_executable(&self.candidates, &exec) {
                    assert(*self == Locator { next: (s.next + 1) as usize, ..s });
                    assert forall|t: Locator, a: LocateAction| continues(*self, t, a) implies continues(
                        s,
                        t,
                        a,
                    ) by {}
                } else {
                    let node = if self.tier == Tier::Explicit {
                        clone_opt_string(&self.settings_node)
                    } else {
                        None
                    };
                    let source = match self.tier {
                        Tier::Explicit => Source::UserSpecified,
                        Tier::Scan => Source::Scanned,
                        Tier::PathFiles => Source::PathFile,
                        _ => Source::ZshLogin,
                    };
                    self.pending = Some(Pending { executable: exec.clone(), node, source });
                    self.awaiting = Awaiting::FileCheck;
                    return LocateAction::CheckFile(exec);
                }
            } else {
                match self.tier {
                    Tier::Explicit => {
                        if self.candidates.len() > 0 {
                            self.tier = Tier::Done;
                            self.awaiting = Awaiting::Nothing;
                            return LocateAction::Finish(outcome_of(&self.candidates));
                        }
                        let ghost s = *self;
                        self.tier = Tier::Scan;
                        std::mem::swap(&mut self.queue, &mut self.scan_queue);
                        self.next = 0;
                        assert(*self == Locator {
                            tier: Tier::Scan,
                            queue: s.scan_queue,
                            scan_queue: s.queue,
                            next: 0,
                            ..s
                        });
                        assert forall|t: Locator, a: LocateAction| continues(*self, t, a) implies continues(
                            s,
                            t,
                            a,
                        ) by {
                        }
                    },
                    Tier::Scan => {
                        self.tier = Tier::PathFiles;
                        self.awaiting = Awaiting::PathDirs;
                        return LocateAction::ReadPathFiles;
                    },
                    Tier::PathFiles => {
                        self.tier = Tier::Zsh;
                        self.awaiting = Awaiting::ZshPath;
                        return LocateAction::AskZsh;
                    },
                    _ => {
                        dedupe(&mut self.candidates);
                        sort_candidates(&mut self.candidates);
                        self.tier = Tier::Done;
                        self.awaiting = Awaiting::Nothing;
                        return LocateAction::Finish(outcome_of(&self.candidates));
                    },
                }
            }
        }
    }

    /// The action this pass waits on, asked again.
    fn repeat(&self) -> (a: LocateAction)
        ensures
            repeats(*self, a),
    {
        match self.awaiting {
            Awaiting::FileCheck => match &self.pending {
                Some(p) => LocateAction::CheckFile(p.executable.clone()),
                None => LocateAction::Finish(outcome_of(&self.candidates)),
            },
            Awaiting::Shebang => match &self.pending {
                Some(p) => LocateAction::ReadShebang(p.executable.clone()),
                None => LocateAction::Finish(outcome_of(&self.candidates)),
            },
            Awaiting::Interpreter => match &self.pending {
                Some(_) => LocateAction::CheckInterpreters(copy_strings(&self.interpreters)),
                None => LocateAction::Finish(outcome_of(&self.candidates)),
            },
            Awaiting::Version => match &self.pending {
                Some(p) => LocateAction::DetectVersion {
                    executable: p.executable.clone(),
                    node: clone_opt_string(&p.node),
                },
                None => LocateAction::Finish(outcome_of(&self.candidates)),
            },
            Awaiting::PathDirs => LocateAction::ReadPathFiles,
            Awaiting::ZshPath => LocateAction::AskZsh,
            _ => LocateAction::Finish(outcome_of(&self.candidates)),
        }
    }

    /// Receive the caller's report `event` and say what to do next.
    pub fn advance(&mut self, event: LocateEvent) -> (a: LocateAction)
        ensures
            locate_step(*old(self), event, *final(self), a),
    {
        match self.awaiting {
            Awaiting::Start => {
                return self.continue_tier();
            },
            Awaiting::FileCheck => {
                if let LocateEvent::IsFile(found) = event {
                    if !found {
                        self.pending = None;
                        self.awaiting = Awaiting::Start;
                        return self.continue_tier();
                    }
                    match &self.pending {
                        Some(p) => {
                            let ghost exec = p.executable@;
                            match &p.node {
                                Some(n) => {
                                    let a = LocateAction::DetectVersion {
                                        executable: p.executable.clone(),
                                        node: Some(n.clone()),
                                    };
                                    self.awaiting = Awaiting::Version;
                                    self.confirmed = Ghost(self.confirmed@.insert(exec));
                                    return a;
                                },
                                None => {
                                    let a = LocateAction::ReadShebang(p.executable.clone());
                                    self.awaiting = Awaiting::Shebang;
                                    self.confirmed = Ghost(self.confirmed@.insert(exec));
                                    return a;
                                },
                            }
                        },
                        None => {
                            return self.repeat();
                        },
                    }
                }
                self.repeat()
            },
            Awaiting::Shebang => {
                if let LocateEvent::Shebang(lookup) = event {
                    match self.pending.take() {
                        Some(p) => {
                            match lookup {
                                ShebangLookup::NoInterpreter => {
                                    let a = LocateAction::DetectVersion {
                                        executable: p.executable.clone(),
                                        node: None,
                                    };
                                    self.pending = Some(Pending { node: None, ..p });
                                    self.awaiting = Awaiting::Version;
                                    return a;
                                },
                                ShebangLookup::Found(f) => {
                                    let a = LocateAction::DetectVersion {
                                        executable: p.executable.clone(),
                                        node: Some(f.clone()),
                                    };
                                    self.pending = Some(Pending { node: Some(f), ..p });
                                    self.awaiting = Awaiting::Version;
                                    return a;
                                },
                                ShebangLookup::Search(c) => {
                                    let a = LocateAction::CheckInterpreters(copy_strings(&c));
                                    self.pending = Some(p);
                                    self.interpreters = c;
                                    self.awaiting = Awaiting::Interpreter;
                                    return a;
                                },
                            }
                        },
                        None => {
                            return self.repeat();
                        },
                    }
                }
                self.repeat()
            },
            Awaiting::Interpreter => {
                if let LocateEvent::InterpreterFiles(flags) = event {
                    if flags.len() == self.interpreters.len() {
                        match self.pending.take() {
                            Some(p) => {
                                let node = first_regular_file(&self.interpreters, &flags);
                                let a = LocateAction::DetectVersion {
                                    executable: p.executable.clone(),
                                    node: clone_opt_string(&node),
                                };
                                self.pending = Some(Pending { node, ..p });
                                self.awaiting = Awaiting::Version;
                                return a;
                            },
                            None => {
                                return self.repeat();
                            },
                        }
                    }
                }
                self.repeat()
            },
            Awaiting::Version => {
                if let LocateEvent::Version(v) = event {
                    match self.pending.take() {
                        Some(p) => {
                            let ghost s = *old(self);
                            let c = make_candidate(p.executable, p.node, p.source, v);
                            let ghost cg = c;
                            self.candidates.push(c);
                            self.awaiting = Awaiting::Start;
                            let ghost mid = *self;
                            assert(mid == Locator {
                                pending: None,
                                awaiting: Awaiting::Start,
                                candidates: mid.candidates,
                                ..s
                            });
                            let a = self.continue_tier();
                            assert(mid.candidates@ == s.candidates@.push(cg) && continues(
                                Locator {
                                    pending: None,
                                    awaiting: Awaiting::Start,
                                    candidates: mid.candidates,
                                    ..s
                                },
                                *self,
                                a,
                            ));
                            return a;
                        },
                        None => {
                            return self.repeat();
                        },
                    }
                }
                self.repeat()
            },
            Awaiting::PathDirs => {
                if let LocateEvent::PathDirs(dirs) = event {
                    let q = dsh_paths(&dirs);
                    let ghost s = *self;
                    self.queue = q;
                    self.next = 0;
                    self.awaiting = Awaiting::Start;
                    let ghost mid = *self;
                    assert(mid == Locator { queue: mid.queue, next: 0, awaiting: Awaiting::Start, ..s });
                    let a = self.continue_tier();
                    assert(string_views(mid.queue@) == dsh_in(string_views(dirs@)) && continues(
                        Locator { queue: mid.queue, next: 0, awaiting: Awaiting::Start, ..s },
                        *self,
                        a,
                    ));
                    return a;
                }
                self.repeat()
            },
            Awaiting::ZshPath => {
                if let LocateEvent::ZshFound(found) = event {
                    let mut q: Vec<String> = Vec::new();
                    let ghost fv = match &found {
                        Some(x) => seq![x@],
                        None => seq![],
                    };
                    match found {
                        Some(x) => {
                            q.push(x);
                        },
                        None => {},
                    }
                    assert(string_views(q@) =~= fv);
                    let ghost s = *self;
                    self.queue = q;
                    self.next = 0;
                    self.awaiting = Awaiting::Start;
                    let ghost mid = *self;
                    let a = self.continue_tier();
                    assert(string_views(mid.queue@) == fv && continues(
                        Locator { queue: mid.queue, next: 0, awaiting: Awaiting::Start, ..s },
                        *self,
                        a,
                    ));
                    return a;
                }
                self.repeat()
            },
            Awaiting::Nothing => self.repeat(),
        }
    }
}

/// Start locating dsh for the given settings and home directory: the pass
/// begins with the user's explicit path, then scans the usual bin directories.
/// Drive it with `Locator::advance`.
pub fn locate(settings: &AppSettings, home: &str) -> (l: Locator)
    ensures
        l.confirmed@ == Set::<Seq<char>>::empty(),
        only_found_files(l),
        settings.dsh_path is None ==> none_user_specified(l),
        l.tier == Tier::Explicit,
        l.awaiting == Awaiting::Start,
        l.next == 0,
        l.pending is None,
        l.candidates@ == Seq::<DshCandidate>::empty(),
        l.settings_node == settings.node_path,
        string_views(l.queue@) == (match explicit_executable(*settings, home@) {
            Some(e) => seq![e],
            None => seq![],
        }),
        string_views(l.scan_queue@) == dsh_in(
            scan_dir_list().map_values(|d: Seq<char>| expanded(d, home@)),
        ),
{
    Locator::new(settings, home)
}

} // verus!
