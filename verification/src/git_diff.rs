//! Reading `git diff` output: the changed files, each with its own part of
//! the full diff and the number of added and deleted lines.
use crate::text::{
    chars_of, ends_with, fields, has_prefix, has_suffix, lines, lines_of,
    lossy_text, push_chars, slice_chars, split_on, starts_with, string_of, trim, trim_chars,
    utf8_lossy, views,
};
use vstd::prelude::*;

verus! {

broadcast use vstd::string::group_string_axioms;

/// One changed file.
#[derive(Debug, Clone)]
pub struct GitFileDiff {
    /// The file's path.
    pub path: String,
    /// Its status letter: M (modified), A (added), D (deleted), R (renamed).
    pub status: String,
    /// Added lines.
    pub additions: u32,
    /// Deleted lines.
    pub deletions: u32,
    /// The file's part of the diff.
    pub diff: String,
}

/// The changed files of a work tree and the `--stat` overview.
#[derive(Debug, Clone)]
pub struct GitDiffResult {
    pub files: Vec<GitFileDiff>,
    pub summary: String,
}

// ---------------------------------------------------------------------------
// One file's part of the diff
// ---------------------------------------------------------------------------
/// A line that starts a file section of the diff.
pub open spec fn is_section_header(line: Seq<char>) -> bool {
    has_prefix(line, "diff --git"@)
}

/// A section header that names exactly `path`: `diff --git a/<path> b/...`,
/// or `diff --git a/... b/<path>` for a file renamed to `path`.
pub open spec fn names_path(line: Seq<char>, path: Seq<char>) -> bool {
    has_prefix(line, "diff --git a/"@ + path + " b/"@) || (has_prefix(line, "diff --git a/"@)
        && has_suffix(line, " b/"@ + path))
}

/// `b` appended to `a`.
fn append_chars(a: &mut Vec<char>, b: &Vec<char>)
    ensures
        final(a)@ == old(a)@ + b@,
{
    let ghost a0 = a@;
    let mut i: usize = 0;
    while i < b.len()
        invariant
            i <= b.len(),
            a@ == a0 + b@.subrange(0, i as int),
        decreases b.len() - i,
    {
        a.push(b[i]);
        assert(a@ =~= a0 + b@.subrange(0, i + 1 as int));
        i = i + 1;
    }
    assert(b@.subrange(0, b.len() as int) =~= b@);
}

/// Scanning the lines of a diff for the section of `path`: the lines kept so
/// far, whether the scan is inside that section, and whether it has ended.
pub open spec fn section_scan(ls: Seq<Seq<char>>, path: Seq<char>) -> (Seq<Seq<char>>, bool, bool)
    decreases ls.len(),
{
    if ls.len() == 0 {
        (Seq::empty(), false, false)
    } else {
        let (kept, inside, ended) = section_scan(ls.drop_last(), path);
        let line = ls.last();
        if ended {
            (kept, inside, true)
        } else if is_section_header(line) {
            if names_path(line, path) {
                (kept.push(line), true, false)
            } else if inside {
                (kept, inside, true)
            } else {
                (kept, false, false)
            }
        } else if inside {
            (kept.push(line), true, false)
        } else {
            (kept, false, false)
        }
    }
}

/// The lines of the section of `path`: from the first header naming it up
/// to the next header that does not.
pub open spec fn section_lines(ls: Seq<Seq<char>>, path: Seq<char>) -> Seq<Seq<char>> {
    section_scan(ls, path).0
}

/// Lines joined, each followed by a newline.
pub open spec fn joined_lines(ls: Seq<Seq<char>>) -> Seq<char>
    decreases ls.len(),
{
    if ls.len() == 0 {
        Seq::empty()
    } else {
        joined_lines(ls.drop_last()) + ls.last() + seq!['\n']
    }
}

/// The section of `path` in the lines `ls`.
fn section_of(ls: &Vec<Vec<char>>, path: &str) -> (r: Vec<Vec<char>>)
    ensures
        views(r@) == section_lines(views(ls@), path@),
{
    let ghost lv = views(ls@);
    let header = chars_of("diff --git");
    let p = chars_of(path);
    let lead = chars_of("diff --git a/");
    let mut pat = chars_of("diff --git a/");
    append_chars(&mut pat, &p);
    append_chars(&mut pat, &chars_of(" b/"));
    let mut suffix = chars_of(" b/");
    append_chars(&mut suffix, &p);
    assert(lv.take(ls.len() as int) =~= lv);
    let mut kept: Vec<Vec<char>> = Vec::new();
    let mut inside = false;
    let mut k: usize = 0;
    while k < ls.len()
        invariant_except_break
            k <= ls.len(),
            lv == views(ls@),
            header@ == "diff --git"@,
            lead@ == "diff --git a/"@,
            pat@ == "diff --git a/"@ + path@ + " b/"@,
            suffix@ == " b/"@ + path@,
            lv.take(ls.len() as int) == lv,
            section_scan(lv.take(k as int), path@) == (views(kept@), inside, false),
        ensures
            section_scan(lv, path@).0 == views(kept@),
        decreases ls.len() - k,
    {
        let ghost before = kept@;
        let line = &ls[k];
        assert(lv.take(k + 1).drop_last() =~= lv.take(k as int));
        assert(lv.take(k + 1).last() == line@);
        if starts_with(line, &header) {
            if starts_with(line, &pat) || (starts_with(line, &lead) && ends_with(line, &suffix)) {
                kept.push(slice_chars(line, 0, line.len()));
                assert(line@.subrange(0, line@.len() as int) =~= line@);
                assert(views(kept@) =~= views(before).push(line@));
                inside = true;
            } else if inside {
                proof {
                    lemma_section_ended(lv, path@, k as int + 1);
                }
                break;
            }
        } else if inside {
            kept.push(slice_chars(line, 0, line.len()));
            assert(line@.subrange(0, line@.len() as int) =~= line@);
            assert(views(kept@) =~= views(before).push(line@));
        }
        k = k + 1;
    }
    kept
}

/// Once the scan has ended, later lines change nothing.
proof fn lemma_section_ended(ls: Seq<Seq<char>>, path: Seq<char>, k: int)
    requires
        0 <= k <= ls.len(),
        section_scan(ls.take(k), path).2,
    ensures
        section_scan(ls, path).0 == section_scan(ls.take(k), path).0,
        section_scan(ls, path).2,
    decreases ls.len() - k,
{
    if k < ls.len() {
        assert(ls.take(k + 1).drop_last() =~= ls.take(k));
        lemma_section_ended(ls, path, k + 1);
    } else {
        assert(ls.take(k) =~= ls);
    }
}

/// The lines `ls` joined, each followed by a newline.
fn join_lines(ls: &Vec<Vec<char>>) -> (r: String)
    ensures
        r@ == joined_lines(views(ls@)),
{
    let ghost lv = views(ls@);
    let mut out = String::new();
    let mut i: usize = 0;
    while i < ls.len()
        invariant
            i <= ls.len(),
            lv == views(ls@),
            out@ == joined_lines(lv.take(i as int)),
        decreases ls.len() - i,
    {
        assert(lv.take(i + 1).drop_last() =~= lv.take(i as int));
        assert(lv.take(i + 1).last() == ls@[i as int]@);
        push_chars(&mut out, &ls[i]);
        out.push('\n');
        i = i + 1;
    }
    assert(lv.take(ls.len() as int) =~= lv);
    out
}

/// The part of a full diff that concerns `file_path`: from its
/// `diff --git` header up to the next header of another file.
pub fn extract_file_diff(full_diff: &str, file_path: &str) -> (r: String)
    ensures
        r@ == joined_lines(section_lines(lines(full_diff@), file_path@)),
{
    let ls = lines_of(&chars_of(full_diff));
    let sec = section_of(&ls, file_path);
    join_lines(&sec)
}

// ---------------------------------------------------------------------------
// Counting changed lines
// ---------------------------------------------------------------------------
/// An added line: it starts with `+` but not with `+++`.
pub open spec fn is_addition(line: Seq<char>) -> bool {
    has_prefix(line, "+"@) && !has_prefix(line, "+++"@)
}

/// A deleted line: it starts with `-` but not with `---`.
pub open spec fn is_deletion(line: Seq<char>) -> bool {
    has_prefix(line, "-"@) && !has_prefix(line, "---"@)
}

/// How many of `ls` are added lines.
pub open spec fn additions_in(ls: Seq<Seq<char>>) -> nat
    decreases ls.len(),
{
    if ls.len() == 0 {
        0
    } else {
        additions_in(ls.drop_last()) + if is_addition(ls.last()) {
            1nat
        } else {
            0nat
        }
    }
}

/// How many of `ls` are deleted lines.
pub open spec fn deletions_in(ls: Seq<Seq<char>>) -> nat
    decreases ls.len(),
{
    if ls.len() == 0 {
        0
    } else {
        deletions_in(ls.drop_last()) + if is_deletion(ls.last()) {
            1nat
        } else {
            0nat
        }
    }
}

/// Adding a line that starts with `-` adds one deletion exactly when the line
/// does not start with `---` (so `-- item`, a deleted line that itself began
/// with `-`, counts); likewise a line that starts with `+` adds one addition
/// exactly when it does not start with `+++`. No other count changes.
pub proof fn changed_lines_counted_by_first_characters(ls: Seq<Seq<char>>, rest: Seq<char>)
    ensures
        ({
            let del = seq!['-'] + rest;
            let add = seq!['+'] + rest;
            let header = rest.len() >= 2 && rest[0] == rest[1] && (rest[0] == '-' || rest[0] == '+');
            &&& deletions_in(ls.push(del)) == deletions_in(ls) + (if header && rest[0] == '-' {
                0int
            } else {
                1int
            })
            &&& additions_in(ls.push(del)) == additions_in(ls)
            &&& additions_in(ls.push(add)) == additions_in(ls) + (if header && rest[0] == '+' {
                0int
            } else {
                1int
            })
            &&& deletions_in(ls.push(add)) == deletions_in(ls)
        }),
{
    reveal_strlit("+");
    reveal_strlit("-");
    reveal_strlit("+++");
    reveal_strlit("---");
    let del = seq!['-'] + rest;
    let add = seq!['+'] + rest;
    assert(ls.push(del).drop_last() =~= ls);
    assert(ls.push(add).drop_last() =~= ls);
    assert(del.subrange(0, 1) =~= "-"@);
    assert(add.subrange(0, 1) =~= "+"@);
    assert(!has_prefix(del, "+"@)) by {
        assert(del.subrange(0, 1)[0] == '-');
    }
    assert(!has_prefix(add, "-"@)) by {
        assert(add.subrange(0, 1)[0] == '+');
    }
    if del.len() >= 3 {
        assert(del.subrange(0, 3)[1] == rest[0]);
        assert(del.subrange(0, 3)[2] == rest[1]);
        if rest[0] == '-' && rest[1] == '-' {
            assert(del.subrange(0, 3) =~= "---"@);
        }
    }
    if add.len() >= 3 {
        assert(add.subrange(0, 3)[1] == rest[0]);
        assert(add.subrange(0, 3)[2] == rest[1]);
        if rest[0] == '+' && rest[1] == '+' {
            assert(add.subrange(0, 3) =~= "+++"@);
        }
    }
}

/// A count as a `u32` keeps it: modulo 2^32.
pub open spec fn wrapped(n: nat) -> nat {
    n % 0x1_0000_0000
}

/// Added and deleted lines among `ls`, counted in `u32`s that wrap.
fn count_changes(ls: &Vec<Vec<char>>) -> (r: (u32, u32))
    ensures
        r.0 == wrapped(additions_in(views(ls@))),
        r.1 == wrapped(deletions_in(views(ls@))),
{
    let ghost lv = views(ls@);
    let plus = chars_of("+");
    let plus3 = chars_of("+++");
    let minus = chars_of("-");
    let minus3 = chars_of("---");
    let mut additions: u32 = 0;
    let mut deletions: u32 = 0;
    let mut i: usize = 0;
    while i < ls.len()
        invariant
            i <= ls.len(),
            lv == views(ls@),
            plus@ == "+"@,
            plus3@ == "+++"@,
            minus@ == "-"@,
            minus3@ == "---"@,
            additions == wrapped(additions_in(lv.take(i as int))),
            deletions == wrapped(deletions_in(lv.take(i as int))),
        decreases ls.len() - i,
    {
        assert(lv.take(i + 1).drop_last() =~= lv.take(i as int));
        assert(lv.take(i + 1).last() == ls@[i as int]@);
        let line = &ls[i];
        proof {
            reveal_strlit("+");
            reveal_strlit("-");
            if line@.len() > 0 {
                assert(line@.subrange(0, 1)[0] == line@[0]);
            }
        }
        if starts_with(line, &plus) && !starts_with(line, &plus3) {
            additions = additions.wrapping_add(1);
        } else if starts_with(line, &minus) && !starts_with(line, &minus3) {
            deletions = deletions.wrapping_add(1);
        }
        i = i + 1;
    }
    assert(lv.take(ls.len() as int) =~= lv);
    (additions, deletions)
}

/// Count the added and deleted lines of a diff, in `u32`s that wrap.
pub fn count_diff_lines(diff: &str) -> (r: (u32, u32))
    ensures
        r.0 == wrapped(additions_in(lines(diff@))),
        r.1 == wrapped(deletions_in(lines(diff@))),
{
    let ls = lines_of(&chars_of(diff));
    count_changes(&ls)
}

// ---------------------------------------------------------------------------
// Counting over the joined text
// ---------------------------------------------------------------------------
/// No line of `ls` holds a newline.
pub open spec fn single_lines(ls: Seq<Seq<char>>) -> bool {
    forall|i: int| 0 <= i < ls.len() ==> !(#[trigger] ls[i]).contains('\n')
}

proof fn lemma_line_scan_no_newline(s: Seq<char>)
    ensures
        !crate::text::line_scan(s).1.contains('\n'),
        single_lines(crate::text::line_scan(s).0),
    decreases s.len(),
{
    if s.len() > 0 {
        lemma_line_scan_no_newline(s.drop_last());
        let (done, cur) = crate::text::line_scan(s.drop_last());
        if s.last() == '\n' {
            let c = crate::text::strip_cr(cur);
            assert forall|i: int| 0 <= i < c.len() implies c[i] != '\n' by {
                assert(c[i] == cur[i]);
            }
            assert forall|i: int| 0 <= i < done.push(c).len() implies !(#[trigger] done.push(c)[i]).contains('\n') by {
                if i < done.len() {
                    assert(done.push(c)[i] == done[i]);
                }
            }
        } else {
            assert forall|i: int| 0 <= i < cur.push(s.last()).len() implies cur.push(s.last())[i] != '\n' by {
                if i < cur.len() {
                    assert(cur.push(s.last())[i] == cur[i]);
                }
            }
        }
    }
}

/// The lines of a text hold no newline.
proof fn lemma_lines_single(s: Seq<char>)
    ensures
        single_lines(lines(s)),
{
    lemma_line_scan_no_newline(s);
    let (done, cur) = crate::text::line_scan(s);
    if cur.len() > 0 {
        assert forall|i: int| 0 <= i < done.push(cur).len() implies !(#[trigger] done.push(cur)[i]).contains('\n') by {
            if i < done.len() {
                assert(done.push(cur)[i] == done[i]);
            }
        }
    }
}

/// The section is made of lines of the diff.
proof fn lemma_section_single(ls: Seq<Seq<char>>, path: Seq<char>)
    requires
        single_lines(ls),
    ensures
        single_lines(section_lines(ls, path)),
    decreases ls.len(),
{
    if ls.len() > 0 {
        let d = ls.drop_last();
        assert forall|i: int| 0 <= i < d.len() implies !(#[trigger] d[i]).contains('\n') by {
            assert(d[i] == ls[i]);
        }
        lemma_section_single(d, path);
        let k = section_scan(d, path).0;
        assert(ls.last() == ls[ls.len() - 1]);
        assert forall|i: int| 0 <= i < k.push(ls.last()).len() implies !(#[trigger] k.push(ls.last())[i]).contains('\n') by {
            if i < k.len() {
                assert(k.push(ls.last())[i] == k[i]);
            }
        }
    }
}

/// Scanning a text that ends a line, then a line without newline.
proof fn lemma_line_scan_append(s: Seq<char>, l: Seq<char>)
    requires
        crate::text::line_scan(s).1.len() == 0,
        !l.contains('\n'),
    ensures
        crate::text::line_scan(s + l) == (crate::text::line_scan(s).0, l),
    decreases l.len(),
{
    if l.len() == 0 {
        assert(s + l =~= s);
    } else {
        assert((s + l).drop_last() =~= s + l.drop_last());
        assert(l.last() == l[l.len() - 1]);
        assert forall|i: int| 0 <= i < l.drop_last().len() implies l.drop_last()[i] != '\n' by {
            assert(l.drop_last()[i] == l[i]);
        }
        lemma_line_scan_append(s, l.drop_last());
        assert(l.drop_last().push(l.last()) =~= l);
    }
}

/// The lines of joined lines are the lines, each without a final `\r`.
proof fn lemma_lines_of_joined(ls: Seq<Seq<char>>)
    requires
        single_lines(ls),
    ensures
        crate::text::line_scan(joined_lines(ls)) == (
            ls.map_values(|l: Seq<char>| crate::text::strip_cr(l)),
            Seq::<char>::empty(),
        ),
    decreases ls.len(),
{
    if ls.len() > 0 {
        let d = ls.drop_last();
        assert forall|i: int| 0 <= i < d.len() implies !(#[trigger] d[i]).contains('\n') by {
            assert(d[i] == ls[i]);
        }
        lemma_lines_of_joined(d);
        let l = ls.last();
        assert(l == ls[ls.len() - 1]);
        let j = joined_lines(d);
        lemma_line_scan_append(j, l);
        assert((j + l + seq!['\n']).drop_last() =~= j + l);
        assert(ls.map_values(|x: Seq<char>| crate::text::strip_cr(x)) =~= d.map_values(
            |x: Seq<char>| crate::text::strip_cr(x),
        ).push(crate::text::strip_cr(l)));
    } else {
        assert(ls.map_values(|l: Seq<char>| crate::text::strip_cr(l)) =~= Seq::<Seq<char>>::empty());
    }
}

proof fn lemma_prefix_strip_cr(l: Seq<char>, p: Seq<char>)
    requires
        !p.contains('\r'),
    ensures
        has_prefix(crate::text::strip_cr(l), p) == has_prefix(l, p),
{
    let t = crate::text::strip_cr(l);
    if l.len() > 0 && l.last() == '\r' {
        if has_prefix(l, p) {
            if p.len() == l.len() {
                assert(p[p.len() - 1] == l[l.len() - 1]);
            }
            assert(t.subrange(0, p.len() as int) =~= l.subrange(0, p.len() as int));
        }
        if has_prefix(t, p) {
            assert(l.subrange(0, p.len() as int) =~= t.subrange(0, p.len() as int));
        }
    }
}

proof fn lemma_counts_strip_cr(ls: Seq<Seq<char>>)
    ensures
        additions_in(ls.map_values(|l: Seq<char>| crate::text::strip_cr(l))) == additions_in(ls),
        deletions_in(ls.map_values(|l: Seq<char>| crate::text::strip_cr(l))) == deletions_in(ls),
    decreases ls.len(),
{
    reveal_strlit("+");
    reveal_strlit("+++");
    reveal_strlit("-");
    reveal_strlit("---");
    if ls.len() > 0 {
        let d = ls.drop_last();
        lemma_counts_strip_cr(d);
        let m = ls.map_values(|l: Seq<char>| crate::text::strip_cr(l));
        assert(m.drop_last() =~= d.map_values(|l: Seq<char>| crate::text::strip_cr(l)));
        assert(m.last() == crate::text::strip_cr(ls.last()));
        lemma_prefix_strip_cr(ls.last(), "+"@);
        lemma_prefix_strip_cr(ls.last(), "+++"@);
        lemma_prefix_strip_cr(ls.last(), "-"@);
        lemma_prefix_strip_cr(ls.last(), "---"@);
    }
}

/// Counting the lines of joined lines gives the counts of the lines.
proof fn lemma_counts_of_joined(ls: Seq<Seq<char>>)
    requires
        single_lines(ls),
    ensures
        additions_in(lines(joined_lines(ls))) == additions_in(ls),
        deletions_in(lines(joined_lines(ls))) == deletions_in(ls),
{
    lemma_lines_of_joined(ls);
    lemma_counts_strip_cr(ls);
}

// ---------------------------------------------------------------------------
// The changed files
// ---------------------------------------------------------------------------
/// The `(status, path)` entries of `git diff --name-status` output: each
/// line with at least two tab-separated fields.
pub open spec fn name_status_entries(ls: Seq<Seq<char>>) -> Seq<(Seq<char>, Seq<char>)>
    decreases ls.len(),
{
    if ls.len() == 0 {
        Seq::empty()
    } else {
        let e = name_status_entries(ls.drop_last());
        let fs = fields(ls.last(), '\t');
        if fs.len() >= 2 {
            e.push((fs[0], fs[1]))
        } else {
            e
        }
    }
}

/// The file entry for `(status, path)` given the lines of the full diff.
pub open spec fn file_diff_matches(f: GitFileDiff, status: Seq<char>, path: Seq<char>, full: Seq<Seq<char>>) -> bool {
    let sec = section_lines(full, path);
    &&& f.status@ == status
    &&& f.path@ == path
    &&& f.diff@ == joined_lines(sec)
    &&& f.additions == wrapped(additions_in(lines(f.diff@)))
    &&& f.deletions == wrapped(deletions_in(lines(f.diff@)))
}

/// The changed files, in the order `--name-status` lists them, given its
/// output and the full diff.
pub fn git_diff_files(name_status: &str, full_diff: &str) -> (r: Vec<GitFileDiff>)
    ensures
        r@.len() == name_status_entries(lines(name_status@)).len(),
        forall|i: int|
            0 <= i < r@.len() ==> file_diff_matches(
                #[trigger] r@[i],
                name_status_entries(lines(name_status@))[i].0,
                name_status_entries(lines(name_status@))[i].1,
                lines(full_diff@),
            ),
{
    let ghost es = name_status_entries(lines(name_status@));
    let ghost fl = lines(full_diff@);
    let ns_lines = lines_of(&chars_of(name_status));
    let full_lines = lines_of(&chars_of(full_diff));
    let ghost nl = views(ns_lines@);
    let mut files: Vec<GitFileDiff> = Vec::new();
    let mut i: usize = 0;
    while i < ns_lines.len()
        invariant
            i <= ns_lines.len(),
            nl == views(ns_lines@),
            nl == lines(name_status@),
            views(full_lines@) == fl,
            fl == lines(full_diff@),
            es == name_status_entries(nl),
            files@.len() == name_status_entries(nl.take(i as int)).len(),
            forall|j: int|
                0 <= j < files@.len() ==> file_diff_matches(
                    #[trigger] files@[j],
                    name_status_entries(nl.take(i as int))[j].0,
                    name_status_entries(nl.take(i as int))[j].1,
                    fl,
                ),
        decreases ns_lines.len() - i,
    {
        assert(nl.take(i + 1).drop_last() =~= nl.take(i as int));
        assert(nl.take(i + 1).last() == ns_lines@[i as int]@);
        let parts = split_on(&ns_lines[i], '\t');
        if parts.len() >= 2 {
            assert(fields(ns_lines@[i as int]@, '\t')[0] == parts@[0]@);
            assert(fields(ns_lines@[i as int]@, '\t')[1] == parts@[1]@);
            let status = string_of(&parts[0]);
            let path = string_of(&parts[1]);
            let sec = section_of(&full_lines, path.as_str());
            proof {
                lemma_lines_single(full_diff@);
                lemma_section_single(fl, path@);
                lemma_counts_of_joined(section_lines(fl, path@));
            }
            let diff = join_lines(&sec);
            let (additions, deletions) = count_changes(&sec);
            let ghost before = files@;
            files.push(GitFileDiff { path, status, additions, deletions, diff });
            assert forall|j: int| 0 <= j < files@.len() implies file_diff_matches(
                #[trigger] files@[j],
                name_status_entries(nl.take(i + 1))[j].0,
                name_status_entries(nl.take(i + 1))[j].1,
                fl,
            ) by {
                if j < before.len() {
                    assert(files@[j] == before[j]);
                }
            }
        }
        i = i + 1;
    }
    assert(nl.take(ns_lines.len() as int) =~= nl);
    files
}

/// The first decision of `get_git_diff`, once `git rev-parse
/// --is-inside-work-tree` has run: a directory outside any Git work tree is
/// refused with "当前目录不是 Git 仓库"; inside one the diff is read.
pub fn require_work_tree(inside_work_tree: bool) -> (r: Result<(), String>)
    ensures
        r is Ok <==> inside_work_tree,
        r matches Err(m) ==> m@ == "当前目录不是 Git 仓库"@,
{
    if inside_work_tree {
        Ok(())
    } else {
        Err(String::from_str("当前目录不是 Git 仓库"))
    }
}

/// The result of `get_git_diff` from the output of `git diff --stat`,
/// `git diff --name-status` and `git diff` (read as lossy UTF-8): the trimmed
/// overview and the changed files.
pub fn git_diff_result(stat_out: &[u8], name_status_out: &[u8], diff_out: &[u8]) -> (res:
    GitDiffResult)
    ensures
        res.summary@ == trim(lossy_text(stat_out@)),
        res.files@.len() == name_status_entries(lines(lossy_text(name_status_out@))).len(),
        forall|i: int|
            0 <= i < res.files@.len() ==> file_diff_matches(
                #[trigger] res.files@[i],
                name_status_entries(lines(lossy_text(name_status_out@)))[i].0,
                name_status_entries(lines(lossy_text(name_status_out@)))[i].1,
                lines(lossy_text(diff_out@)),
            ),
{
    let full_diff = utf8_lossy(diff_out);
    let stat = utf8_lossy(stat_out);
    let summary = string_of(&trim_chars(&chars_of(stat.as_str())));
    let name_status = utf8_lossy(name_status_out);
    let files = git_diff_files(name_status.as_str(), full_diff.as_str());
    GitDiffResult { files, summary }
}

} // verus!
