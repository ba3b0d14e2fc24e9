//! Discovered dsh installations: where they came from, how their versions
//! compare, and how a list of them is ordered best-first.
use crate::text::{
    chars_of, contains_char, is_ascii_digit, is_digit, parse_unsigned, parse_unsigned_chars,
    slice_chars, split_whitespace, string_of, views, ws_tokens,
};
use std::cmp::Ordering;
use vstd::prelude::*;

verus! {

/// Where the dsh binary was found and how trustworthy that finding is.
#[derive(Debug, Clone, Copy, PartialEq, Eq, Structural)]
pub enum Source {
    /// Tier 0: user explicitly chose this path in settings (only fully reliable).
    UserSpecified,
    /// Tier 1: discovered by scanning candidate bin directories.
    Scanned,
    /// Tier 2: resolved from parsed PATH files.
    PathFile,
    /// Tier 3: last-resort `zsh -lic 'command -v dsh'`.
    ZshLogin,
}

/// The priority of a source: lower means more trustworthy.
pub open spec fn source_priority(s: Source) -> nat {
    match s {
        Source::UserSpecified => 0,
        Source::Scanned => 1,
        Source::PathFile => 2,
        Source::ZshLogin => 3,
    }
}

/// The stable lowercase label of a source.
pub open spec fn source_label(s: Source) -> Seq<char> {
    match s {
        Source::UserSpecified => "user"@,
        Source::Scanned => "scanned"@,
        Source::PathFile => "path-file"@,
        Source::ZshLogin => "zsh-login"@,
    }
}

impl Source {
    /// Numeric priority; lower means more trustworthy (used for ordering).
    pub fn priority(&self) -> (p: u8)
        ensures
            p as nat == source_priority(*self),
    {
        match self {
            Source::UserSpecified => 0,
            Source::Scanned => 1,
            Source::PathFile => 2,
            Source::ZshLogin => 3,
        }
    }

    /// Stable lowercase label for logs and the setup UI.
    pub fn as_str(&self) -> (s: &'static str)
        ensures
            s@ == source_label(*self),
    {
        match self {
            Source::UserSpecified => "user",
            Source::Scanned => "scanned",
            Source::PathFile => "path-file",
            Source::ZshLogin => "zsh-login",
        }
    }
}

/// A resolved dsh installation.
#[derive(Debug, PartialEq, Eq)]
pub struct DshCandidate {
    /// Absolute path to the `dsh` executable (a node script or binary).
    pub executable: String,
    /// The node runtime that should run `dsh`; `None` lets the kernel use the shebang.
    pub node: Option<String>,
    /// dsh version string from `dsh --version` (e.g. "0.1.0-rc.7").
    pub version: String,
    /// How this candidate was discovered.
    pub source: Source,
}

pub fn clone_opt_string(o: &Option<String>) -> (r: Option<String>)
    ensures
        r == *o,
{
    match o {
        Some(s) => Some(s.clone()),
        None => None,
    }
}

impl Clone for DshCandidate {
    fn clone(&self) -> (r: Self)
        ensures
            r == *self,
    {
        DshCandidate {
            executable: self.executable.clone(),
            node: clone_opt_string(&self.node),
            version: self.version.clone(),
            source: self.source,
        }
    }
}

/// Result of the location pass: the chosen candidate plus all discovered candidates.
#[derive(Debug)]
pub struct LocateOutcome {
    /// The candidate the launcher will use (best by source priority then version).
    pub primary: Option<DshCandidate>,
    /// Every candidate found, highest priority / version first.
    pub candidates: Vec<DshCandidate>,
}

/// Build a candidate from its detected version; an undetected version reads
/// `"unknown"`.
pub fn make_candidate(executable: String, node: Option<String>, source: Source, version: Option<
    String,
>) -> (c: DshCandidate)
    ensures
        c.executable == executable,
        c.node == node,
        c.source == source,
        c.version@ == (match version {
            Some(v) => v@,
            None => "unknown"@,
        }),
{
    let version = match version {
        Some(v) => v,
        None => String::from_str("unknown"),
    };
    DshCandidate { executable, node, version, source }
}

// ---------------------------------------------------------------------------
// Version strings
// ---------------------------------------------------------------------------
pub open spec fn is_version_sep(c: char) -> bool {
    c == '.' || c == '-' || c == '+'
}

/// Scanning a version string for its non-empty pieces between separators.
pub open spec fn piece_scan(s: Seq<char>) -> (Seq<Seq<char>>, Seq<char>)
    decreases s.len(),
{
    if s.len() == 0 {
        (seq![], seq![])
    } else {
        let (done, cur) = piece_scan(s.drop_last());
        if is_version_sep(s.last()) {
            if cur.len() > 0 {
                (done.push(cur), seq![])
            } else {
                (done, cur)
            }
        } else {
            (done, cur.push(s.last()))
        }
    }
}

/// The non-empty pieces of a version string split at `.`, `-` and `+`.
pub open spec fn version_pieces(s: Seq<char>) -> Seq<Seq<char>> {
    let (done, cur) = piece_scan(s);
    if cur.len() > 0 {
        done.push(cur)
    } else {
        done
    }
}

/// `s` without leading characters that are not ASCII digits.
pub open spec fn drop_non_digits_start(s: Seq<char>) -> Seq<char>
    decreases s.len(),
{
    if s.len() > 0 && !is_digit(s[0]) {
        drop_non_digits_start(s.drop_first())
    } else {
        s
    }
}

/// `s` without trailing characters that are not ASCII digits.
pub open spec fn drop_non_digits_end(s: Seq<char>) -> Seq<char>
    decreases s.len(),
{
    if s.len() > 0 && !is_digit(s.last()) {
        drop_non_digits_end(s.drop_last())
    } else {
        s
    }
}

/// The numeric value of a version piece: the `u64` written between its first
/// and last digit, or 0 when there is none or it does not parse.
pub open spec fn piece_number(p: Seq<char>) -> nat {
    match parse_unsigned(drop_non_digits_end(drop_non_digits_start(p)), u64::MAX as nat) {
        Some(n) => n,
        None => 0,
    }
}

/// The components a version string is compared by: each piece with its number.
pub open spec fn version_components(s: Seq<char>) -> Seq<(nat, Seq<char>)> {
    version_pieces(s).map_values(|p: Seq<char>| (piece_number(p), p))
}

/// Three-way comparison of naturals as a sign: -1, 0 or 1.
pub open spec fn nat_sign(a: nat, b: nat) -> int {
    if a < b {
        -1
    } else if a == b {
        0
    } else {
        1
    }
}

/// Lexicographic comparison of two character sequences by code point (the
/// order of `str` comparison), as a sign.
pub open spec fn text_sign(a: Seq<char>, b: Seq<char>) -> int
    decreases a.len(),
{
    if a.len() == 0 {
        if b.len() == 0 {
            0
        } else {
            -1
        }
    } else if b.len() == 0 {
        1
    } else if a[0] < b[0] {
        -1
    } else if a[0] > b[0] {
        1
    } else {
        text_sign(a.drop_first(), b.drop_first())
    }
}

/// Comparison of `(number, piece)` pairs: by number, then by piece.
pub open spec fn component_sign(a: (nat, Seq<char>), b: (nat, Seq<char>)) -> int {
    if a.0 != b.0 {
        nat_sign(a.0, b.0)
    } else {
        text_sign(a.1, b.1)
    }
}

/// Lexicographic comparison of component lists (a proper prefix comes first).
pub open spec fn components_sign(a: Seq<(nat, Seq<char>)>, b: Seq<(nat, Seq<char>)>) -> int
    decreases a.len(),
{
    if a.len() == 0 {
        if b.len() == 0 {
            0
        } else {
            -1
        }
    } else if b.len() == 0 {
        1
    } else if component_sign(a[0], b[0]) != 0 {
        component_sign(a[0], b[0])
    } else {
        components_sign(a.drop_first(), b.drop_first())
    }
}

/// `i` is the index of the first `-` in `s`.
pub open spec fn is_first_dash(s: Seq<char>, i: int) -> bool {
    &&& 0 <= i < s.len()
    &&& s[i] == '-'
    &&& forall|j: int| 0 <= j < i ==> s[j] != '-'
}

/// The index of the first `-` in `s`, if it has one.
pub open spec fn first_dash(s: Seq<char>) -> Option<int> {
    if exists|i: int| is_first_dash(s, i) {
        Some(choose|i: int| is_first_dash(s, i))
    } else {
        None
    }
}

/// The release part of a version string: everything before its first `-`.
pub open spec fn release_part(s: Seq<char>) -> Seq<char> {
    match first_dash(s) {
        Some(i) => s.subrange(0, i),
        None => s,
    }
}

/// The pre-release suffix of a version string: everything after its first
/// `-`, or `None` when it has no `-`.
pub open spec fn pre_release(s: Seq<char>) -> Option<Seq<char>> {
    match first_dash(s) {
        Some(i) => Some(s.subrange(i + 1, s.len() as int)),
        None => None,
    }
}

/// Comparison of two version strings as a sign: the release parts by their
/// components; on a tie a version without a pre-release suffix ranks above
/// one with a suffix, and two suffixes compare by their components.
pub open spec fn version_sign(a: Seq<char>, b: Seq<char>) -> int {
    let r = components_sign(
        version_components(release_part(a)),
        version_components(release_part(b)),
    );
    if r != 0 {
        r
    } else {
        match (pre_release(a), pre_release(b)) {
            (None, None) => 0,
            (None, Some(_)) => 1,
            (Some(_), None) => -1,
            (Some(x), Some(y)) => components_sign(version_components(x), version_components(y)),
        }
    }
}

/// The `Ordering` a sign stands for.
pub open spec fn sign_order(s: int) -> Ordering {
    if s < 0 {
        Ordering::Less
    } else if s == 0 {
        Ordering::Equal
    } else {
        Ordering::Greater
    }
}

/// The reverse of an `Ordering`.
pub open spec fn reverse_order(o: Ordering) -> Ordering {
    match o {
        Ordering::Less => Ordering::Greater,
        Ordering::Equal => Ordering::Equal,
        Ordering::Greater => Ordering::Less,
    }
}

/// The order of two version strings.
pub open spec fn version_order(a: Seq<char>, b: Seq<char>) -> Ordering {
    sign_order(version_sign(a, b))
}

/// The pieces of a version string.
fn version_piece_list(v: &Vec<char>) -> (r: Vec<Vec<char>>)
    ensures
        views(r@) == version_pieces(v@),
{
    let mut done: Vec<Vec<char>> = Vec::new();
    let mut cur: Vec<char> = Vec::new();
    let mut i: usize = 0;
    while i < v.len()
        invariant
            i <= v.len(),
            (views(done@), cur@) == piece_scan(v@.subrange(0, i as int)),
        decreases v.len() - i,
    {
        let c = v[i];
        proof {
            assert(v@.subrange(0, i + 1 as int).drop_last() =~= v@.subrange(0, i as int));
        }
        if c == '.' || c == '-' || c == '+' {
            if cur.len() > 0 {
                let ghost old_done = done@;
                done.push(cur);
                cur = Vec::new();
                assert(views(done@) =~= views(old_done).push(views(done@).last()));
            }
        } else {
            cur.push(c);
        }
        i = i + 1;
    }
    assert(v@.subrange(0, v.len() as int) =~= v@);
    if cur.len() > 0 {
        let ghost old_done = done@;
        done.push(cur);
        assert(views(done@) =~= views(old_done).push(views(done@).last()));
    }
    done
}

/// `p` trimmed of non-digits at both ends (`str::trim_matches`).
fn strip_non_digits(p: &Vec<char>) -> (r: Vec<char>)
    ensures
        r@ == drop_non_digits_end(drop_non_digits_start(p@)),
{
    let mut i: usize = 0;
    assert(p@.subrange(0, p.len() as int) =~= p@);
    while i < p.len() && !is_ascii_digit(p[i])
        invariant
            i <= p.len(),
            drop_non_digits_start(p@) == drop_non_digits_start(p@.subrange(i as int, p.len() as int)),
        decreases p.len() - i,
    {
        assert(p@.subrange(i as int, p.len() as int).drop_first() =~= p@.subrange(
            i + 1 as int,
            p.len() as int,
        ));
        i = i + 1;
    }
    let a = slice_chars(p, i, p.len());
    let mut j: usize = a.len();
    assert(a@.subrange(0, a.len() as int) =~= a@);
    while j > 0 && !is_ascii_digit(a[j - 1])
        invariant
            j <= a.len(),
            drop_non_digits_end(a@) == drop_non_digits_end(a@.subrange(0, j as int)),
        decreases j,
    {
        assert(a@.subrange(0, j as int).drop_last() =~= a@.subrange(0, j - 1 as int));
        j = j - 1;
    }
    slice_chars(&a, 0, j)
}

/// The numeric value of one version piece.
fn piece_value(p: &Vec<char>) -> (n: u64)
    ensures
        n as nat == piece_number(p@),
{
    let num = strip_non_digits(p);
    match parse_unsigned_chars(&num, u64::MAX) {
        Some(n) => n,
        None => 0,
    }
}

pub open spec fn component_views(c: Seq<(u64, Vec<char>)>) -> Seq<(nat, Seq<char>)> {
    c.map_values(|x: (u64, Vec<char>)| (x.0 as nat, x.1@))
}

/// The components of a version string.
fn components_of(v: &Vec<char>) -> (r: Vec<(u64, Vec<char>)>)
    ensures
        component_views(r@) == version_components(v@),
{
    let pieces = version_piece_list(v);
    let ghost ps = version_pieces(v@);
    let mut r: Vec<(u64, Vec<char>)> = Vec::new();
    let mut i: usize = 0;
    while i < pieces.len()
        invariant
            i <= pieces.len(),
            views(pieces@) == ps,
            ps == version_pieces(v@),
            component_views(r@) == ps.subrange(0, i as int).map_values(
                |p: Seq<char>| (piece_number(p), p),
            ),
        decreases pieces.len() - i,
    {
        let p = &pieces[i];
        assert(ps[i as int] == p@);
        let n = piece_value(p);
        let copy = slice_chars(p, 0, p.len());
        assert(copy@ =~= p@);
        let ghost old_r = r@;
        r.push((n, copy));
        assert(component_views(r@) =~= component_views(old_r).push((n as nat, p@)));
        assert(ps.subrange(0, i + 1 as int) =~= ps.subrange(0, i as int).push(ps[i as int]));
        i = i + 1;
        assert(component_views(r@) =~= ps.subrange(0, i as int).map_values(
            |p: Seq<char>| (piece_number(p), p),
        ));
    }
    assert(ps.subrange(0, pieces.len() as int) =~= ps);
    r
}

proof fn lemma_text_sign_step(a: Seq<char>, b: Seq<char>, i: int)
    requires
        0 <= i < a.len(),
        i < b.len(),
        a[i] == b[i],
    ensures
        text_sign(a.subrange(i, a.len() as int), b.subrange(i, b.len() as int)) == text_sign(
            a.subrange(i + 1, a.len() as int),
            b.subrange(i + 1, b.len() as int),
        ),
{
    assert(a.subrange(i, a.len() as int).drop_first() =~= a.subrange(i + 1, a.len() as int));
    assert(b.subrange(i, b.len() as int).drop_first() =~= b.subrange(i + 1, b.len() as int));
}

/// `text_sign` of two character vectors.
pub(crate) fn text_sign_of(a: &Vec<char>, b: &Vec<char>) -> (s: i8)
    ensures
        s as int == text_sign(a@, b@),
{
    let mut i: usize = 0;
    assert(a@.subrange(0, a.len() as int) =~= a@);
    assert(b@.subrange(0, b.len() as int) =~= b@);
    while i < a.len() && i < b.len()
        invariant
            i <= a.len(),
            i <= b.len(),
            text_sign(a@, b@) == text_sign(
                a@.subrange(i as int, a.len() as int),
                b@.subrange(i as int, b.len() as int),
            ),
        decreases a.len() - i,
    {
        if a[i] < b[i] {
            return -1;
        }
        if a[i] > b[i] {
            return 1;
        }
        proof {
            lemma_text_sign_step(a@, b@, i as int);
        }
        i = i + 1;
    }
    if i == a.len() {
        if i == b.len() {
            0
        } else {
            -1
        }
    } else {
        1
    }
}

proof fn lemma_components_sign_step(
    a: Seq<(nat, Seq<char>)>,
    b: Seq<(nat, Seq<char>)>,
    i: int,
)
    requires
        0 <= i < a.len(),
        i < b.len(),
        component_sign(a[i], b[i]) == 0,
    ensures
        components_sign(a.subrange(i, a.len() as int), b.subrange(i, b.len() as int))
            == components_sign(a.subrange(i + 1, a.len() as int), b.subrange(i + 1, b.len() as int)),
{
    assert(a.subrange(i, a.len() as int).drop_first() =~= a.subrange(i + 1, a.len() as int));
    assert(b.subrange(i, b.len() as int).drop_first() =~= b.subrange(i + 1, b.len() as int));
}

/// `components_sign` of two component lists.
fn components_sign_of(a: &Vec<(u64, Vec<char>)>, b: &Vec<(u64, Vec<char>)>) -> (s: i8)
    ensures
        s as int == components_sign(component_views(a@), component_views(b@)),
{
    let ghost va = component_views(a@);
    let ghost vb = component_views(b@);
    let mut i: usize = 0;
    assert(va.subrange(0, a.len() as int) =~= va);
    assert(vb.subrange(0, b.len() as int) =~= vb);
    while i < a.len() && i < b.len()
        invariant
            i <= a.len(),
            i <= b.len(),
            va == component_views(a@),
            vb == component_views(b@),
            components_sign(va, vb) == components_sign(
                va.subrange(i as int, a.len() as int),
                vb.subrange(i as int, b.len() as int),
            ),
        decreases a.len() - i,
    {
        let x = &a[i];
        let y = &b[i];
        assert(va[i as int] == (x.0 as nat, x.1@));
        assert(vb[i as int] == (y.0 as nat, y.1@));
        assert(va.subrange(i as int, a.len() as int)[0] == va[i as int]);
        assert(vb.subrange(i as int, b.len() as int)[0] == vb[i as int]);
        if x.0 < y.0 {
            return -1;
        }
        if x.0 > y.0 {
            return 1;
        }
        let t = text_sign_of(&x.1, &y.1);
        if t != 0 {
            return t;
        }
        proof {
            lemma_components_sign_step(va, vb, i as int);
        }
        i = i + 1;
    }
    if i == a.len() {
        if i == b.len() {
            0
        } else {
            -1
        }
    } else {
        1
    }
}

/// A version string split at its first `-` into its release part and its
/// pre-release suffix.
fn split_pre_release(v: &Vec<char>) -> (r: (Vec<char>, Option<Vec<char>>))
    ensures
        r.0@ == release_part(v@),
        match r.1 {
            Some(p) => pre_release(v@) == Some(p@),
            None => pre_release(v@) is None,
        },
{
    let mut i: usize = 0;
    while i < v.len() && v[i] != '-'
        invariant
            i <= v.len(),
            forall|j: int| 0 <= j < i ==> v@[j] != '-',
        decreases v.len() - i,
    {
        i = i + 1;
    }
    if i < v.len() {
        proof {
            assert(is_first_dash(v@, i as int));
            let k = choose|k: int| is_first_dash(v@, k);
            if k < i {
                assert(v@[k] != '-');
            } else if k > i {
                assert(v@[i as int] != '-');
            }
            assert(first_dash(v@) == Some(i as int));
        }
        (slice_chars(v, 0, i), Some(slice_chars(v, i + 1, v.len())))
    } else {
        assert(!exists|k: int| is_first_dash(v@, k));
        (slice_chars(v, 0, v.len()), None)
    }
}

/// The comparison of two version strings as a sign.
pub fn version_sign_of(a: &str, b: &str) -> (s: i8)
    ensures
        s as int == version_sign(a@, b@),
{
    let (ra, pa) = split_pre_release(&chars_of(a));
    let (rb, pb) = split_pre_release(&chars_of(b));
    let r = components_sign_of(&components_of(&ra), &components_of(&rb));
    if r != 0 {
        return r;
    }
    match pa {
        None => match pb {
            None => 0,
            Some(_) => 1,
        },
        Some(x) => match pb {
            None => -1,
            Some(y) => components_sign_of(&components_of(&x), &components_of(&y)),
        },
    }
}

/// Compare two dsh version strings for ordering (higher first).
/// Lexicographic on numeric components; pre-release suffixes compare as lower:
/// `0.1.0-rc.7` orders before `0.1.0`.
pub fn version_cmp(a: &str, b: &str) -> (o: Ordering)
    ensures
        o == version_order(a@, b@),
{
    let s = version_sign_of(a, b);
    if s < 0 {
        Ordering::Less
    } else if s == 0 {
        Ordering::Equal
    } else {
        Ordering::Greater
    }
}

// ---------------------------------------------------------------------------
// Ordering candidates best-first
// ---------------------------------------------------------------------------
/// `<[T]>::swap` exchanges the elements at two in-bounds indices.
pub assume_specification<T>[ <[T]>::swap ](s: &mut [T], a: usize, b: usize)
    requires
        a < old(s)@.len(),
        b < old(s)@.len(),
    ensures
        final(s)@ == old(s)@.update(a as int, old(s)@[b as int]).update(b as int, old(s)@[a as int]),
;

/// The comparison candidates are sorted by, as a sign: lower source priority
/// first, then higher version first.
pub open spec fn candidate_sign(a: DshCandidate, b: DshCandidate) -> int {
    if source_priority(a.source) != source_priority(b.source) {
        nat_sign(source_priority(a.source), source_priority(b.source))
    } else {
        version_sign(b.version@, a.version@)
    }
}

/// The order `sort_candidates` sorts by.
pub open spec fn candidate_order(a: DshCandidate, b: DshCandidate) -> Ordering {
    sign_order(candidate_sign(a, b))
}

/// `x` inserted into `sorted` after every element that does not order after it.
pub open spec fn insert_stable(sorted: Seq<DshCandidate>, x: DshCandidate) -> Seq<DshCandidate>
    decreases sorted.len(),
{
    if sorted.len() == 0 {
        seq![x]
    } else if candidate_sign(sorted.last(), x) > 0 {
        insert_stable(sorted.drop_last(), x).push(sorted.last())
    } else {
        sorted.push(x)
    }
}

/// The stable sort of `s` by `candidate_order`.
pub open spec fn sorted_candidates(s: Seq<DshCandidate>) -> Seq<DshCandidate>
    decreases s.len(),
{
    if s.len() == 0 {
        s
    } else {
        insert_stable(sorted_candidates(s.drop_last()), s.last())
    }
}

/// The sign of `candidate_order(a, b)`.
pub fn candidate_sign_of(a: &DshCandidate, b: &DshCandidate) -> (s: i8)
    ensures
        s as int == candidate_sign(*a, *b),
{
    let pa = a.source.priority();
    let pb = b.source.priority();
    if pa < pb {
        -1
    } else if pa > pb {
        1
    } else {
        version_sign_of(b.version.as_str(), a.version.as_str())
    }
}

proof fn lemma_insert_at(pre: Seq<DshCandidate>, x: DshCandidate, j: int)
    requires
        0 <= j <= pre.len(),
        j == 0 || candidate_sign(pre[j - 1], x) <= 0,
        forall|k: int| j <= k < pre.len() ==> candidate_sign(#[trigger] pre[k], x) > 0,
    ensures
        insert_stable(pre, x) == pre.insert(j, x),
    decreases pre.len(),
{
    if pre.len() == 0 {
        assert(pre.insert(j, x) =~= seq![x]);
    } else if j == pre.len() {
        assert(pre.insert(j, x) =~= pre.push(x));
    } else {
        assert(candidate_sign(pre.last(), x) > 0);
        let d = pre.drop_last();
        assert forall|k: int| j <= k < d.len() implies candidate_sign(#[trigger] d[k], x) > 0 by {
            assert(d[k] == pre[k]);
        }
        lemma_insert_at(d, x, j);
        assert(d.insert(j, x).push(pre.last()) =~= pre.insert(j, x));
    }
}

/// Sort candidates best-first: user-specified and higher version win. The
/// sort is stable.
pub fn sort_candidates(candidates: &mut [DshCandidate])
    ensures
        final(candidates)@ == sorted_candidates(old(candidates)@),
{
    let ghost input = candidates@;
    let n = candidates.len();
    if n == 0 {
        return;
    }
    let mut i: usize = 1;
    assert(input.subrange(0, 1).drop_last() =~= input.subrange(0, 0));
    assert(sorted_candidates(input.subrange(0, 0)) == input.subrange(0, 0));
    assert(input.subrange(0, 1).last() == input[0]);
    assert(insert_stable(input.subrange(0, 0), input[0]) == seq![input[0]]);
    assert(candidates@.subrange(0, 1) =~= seq![input[0]]);
    while i < n
        invariant
            1 <= i <= n,
            n == candidates@.len(),
            input.len() == n,
            candidates@.subrange(0, i as int) == sorted_candidates(input.subrange(0, i as int)),
            candidates@.subrange(i as int, n as int) == input.subrange(i as int, n as int),
        decreases n - i,
    {
        let ghost pre = sorted_candidates(input.subrange(0, i as int));
        let ghost x = input[i as int];
        let ghost rest = input.subrange(i + 1, n as int);
        assert(candidates@[i as int] == x) by {
            assert(candidates@.subrange(i as int, n as int)[0] == input.subrange(i as int, n as int)[0]);
        }
        let mut j: usize = i;
        assert(candidates@ =~= pre.insert(i as int, x) + rest) by {
            assert(candidates@.subrange(i + 1, n as int) =~= candidates@.subrange(i as int, n as int).drop_first());
            assert(input.subrange(i + 1, n as int) =~= input.subrange(i as int, n as int).drop_first());
            assert(candidates@ =~= candidates@.subrange(0, i as int) + seq![candidates@[i as int]] + candidates@.subrange(i + 1, n as int));
        }
        while j > 0 && candidate_sign_of(&candidates[j - 1], &candidates[j]) > 0
            invariant
                0 <= j <= i < n,
                n == candidates@.len(),
                pre.len() == i,
                candidates@ == pre.insert(j as int, x) + rest,
                forall|k: int| j <= k < i ==> candidate_sign(#[trigger] pre[k], x) > 0,
            decreases j,
        {
            assert(candidates@[j - 1] == pre[j - 1]);
            assert(candidates@[j as int] == x);
            candidates.swap(j - 1, j);
            j = j - 1;
            assert(candidates@ =~= pre.insert(j as int, x) + rest);
        }
        proof {
            if j > 0 {
                assert(candidates@[j - 1] == pre[j - 1]);
                assert(candidates@[j as int] == x);
            }
            lemma_insert_at(pre, x, j as int);
            assert(input.subrange(0, i + 1 as int).drop_last() =~= input.subrange(0, i as int));
            assert(input.subrange(0, i + 1 as int).last() == x);
            assert(candidates@.subrange(0, i + 1 as int) =~= pre.insert(j as int, x));
            assert(candidates@.subrange(i + 1 as int, n as int) =~= rest);
        }
        i = i + 1;
    }
    assert(candidates@.subrange(0, n as int) =~= candidates@);
    assert(input.subrange(0, n as int) =~= input);
}

// ---------------------------------------------------------------------------
// Laws of the orders
// ---------------------------------------------------------------------------
pub(crate) proof fn lemma_text_sign_antisymmetric(a: Seq<char>, b: Seq<char>)
    ensures
        text_sign(a, b) == -text_sign(b, a),
    decreases a.len(),
{
    if a.len() > 0 && b.len() > 0 && a[0] == b[0] {
        lemma_text_sign_antisymmetric(a.drop_first(), b.drop_first());
    }
}

proof fn lemma_components_sign_antisymmetric(a: Seq<(nat, Seq<char>)>, b: Seq<(nat, Seq<char>)>)
    ensures
        components_sign(a, b) == -components_sign(b, a),
    decreases a.len(),
{
    if a.len() > 0 && b.len() > 0 {
        lemma_text_sign_antisymmetric(a[0].1, b[0].1);
        if component_sign(a[0], b[0]) == 0 {
            lemma_components_sign_antisymmetric(a.drop_first(), b.drop_first());
        }
    }
}

proof fn lemma_text_sign_reflexive(a: Seq<char>)
    ensures
        text_sign(a, a) == 0,
    decreases a.len(),
{
    if a.len() > 0 {
        lemma_text_sign_reflexive(a.drop_first());
    }
}

proof fn lemma_components_sign_reflexive(a: Seq<(nat, Seq<char>)>)
    ensures
        components_sign(a, a) == 0,
    decreases a.len(),
{
    if a.len() > 0 {
        lemma_text_sign_reflexive(a[0].1);
        lemma_components_sign_reflexive(a.drop_first());
    }
}

pub(crate) proof fn lemma_text_sign_zero(a: Seq<char>, b: Seq<char>)
    ensures
        text_sign(a, b) == 0 ==> a == b,
    decreases a.len(),
{
    if a.len() > 0 && b.len() > 0 && a[0] == b[0] {
        lemma_text_sign_zero(a.drop_first(), b.drop_first());
        if text_sign(a, b) == 0 {
            assert(a.drop_first() == b.drop_first());
            assert(a.len() == b.len());
            assert forall|i: int| 0 <= i < a.len() implies a[i] == b[i] by {
                if i > 0 {
                    assert(a[i] == a.drop_first()[i - 1]);
                    assert(b[i] == b.drop_first()[i - 1]);
                }
            }
            assert(a =~= b);
        }
    } else if a.len() == 0 && b.len() == 0 {
        assert(a =~= b);
    }
}

pub(crate) proof fn lemma_text_sign_lt_trans(a: Seq<char>, b: Seq<char>, c: Seq<char>)
    requires
        text_sign(a, b) < 0,
        text_sign(b, c) < 0,
    ensures
        text_sign(a, c) < 0,
    decreases a.len(),
{
    if a.len() > 0 && b.len() > 0 && c.len() > 0 && a[0] == b[0] && b[0] == c[0] {
        lemma_text_sign_lt_trans(a.drop_first(), b.drop_first(), c.drop_first());
    }
}

proof fn lemma_component_sign_facts(
    a: (nat, Seq<char>),
    b: (nat, Seq<char>),
    c: (nat, Seq<char>),
)
    ensures
        component_sign(a, b) == 0 ==> a == b,
        component_sign(a, b) < 0 && component_sign(b, c) < 0 ==> component_sign(a, c) < 0,
{
    lemma_text_sign_zero(a.1, b.1);
    if text_sign(a.1, b.1) < 0 && text_sign(b.1, c.1) < 0 {
        lemma_text_sign_lt_trans(a.1, b.1, c.1);
    }
    lemma_text_sign_zero(b.1, c.1);
}

proof fn lemma_components_sign_zero(a: Seq<(nat, Seq<char>)>, b: Seq<(nat, Seq<char>)>)
    ensures
        components_sign(a, b) == 0 ==> a == b,
    decreases a.len(),
{
    if a.len() > 0 && b.len() > 0 {
        lemma_component_sign_facts(a[0], b[0], b[0]);
        if component_sign(a[0], b[0]) == 0 {
            lemma_components_sign_zero(a.drop_first(), b.drop_first());
            if components_sign(a, b) == 0 {
                assert(a.drop_first() == b.drop_first());
                assert(a.len() == b.len());
                assert forall|i: int| 0 <= i < a.len() implies a[i] == b[i] by {
                    if i > 0 {
                        assert(a[i] == a.drop_first()[i - 1]);
                        assert(b[i] == b.drop_first()[i - 1]);
                    }
                }
                assert(a =~= b);
            }
        }
    } else if a.len() == 0 && b.len() == 0 {
        assert(a =~= b);
    }
}

proof fn lemma_components_sign_lt_trans(
    a: Seq<(nat, Seq<char>)>,
    b: Seq<(nat, Seq<char>)>,
    c: Seq<(nat, Seq<char>)>,
)
    requires
        components_sign(a, b) < 0,
        components_sign(b, c) < 0,
    ensures
        components_sign(a, c) < 0,
    decreases a.len(),
{
    if a.len() > 0 && b.len() > 0 && c.len() > 0 {
        lemma_component_sign_facts(a[0], b[0], c[0]);
        lemma_component_sign_facts(b[0], c[0], c[0]);
        if component_sign(a[0], b[0]) == 0 && component_sign(b[0], c[0]) == 0 {
            lemma_components_sign_lt_trans(a.drop_first(), b.drop_first(), c.drop_first());
        }
    }
}

proof fn lemma_components_sign_le_trans(
    a: Seq<(nat, Seq<char>)>,
    b: Seq<(nat, Seq<char>)>,
    c: Seq<(nat, Seq<char>)>,
)
    ensures
        components_sign(a, b) == 0 ==> a == b,
        components_sign(b, c) == 0 ==> b == c,
        components_sign(a, b) <= 0 && components_sign(b, c) <= 0 ==> components_sign(a, c) <= 0,
        components_sign(a, b) < 0 && components_sign(b, c) <= 0 ==> components_sign(a, c) < 0,
        components_sign(a, b) <= 0 && components_sign(b, c) < 0 ==> components_sign(a, c) < 0,
{
    lemma_components_sign_zero(a, b);
    lemma_components_sign_zero(b, c);
    if components_sign(a, b) < 0 && components_sign(b, c) < 0 {
        lemma_components_sign_lt_trans(a, b, c);
    }
}

/// If `x` orders no later than `y` and `y` no later than `z`, then `x`
/// orders no later than `z`.
pub proof fn version_order_transitive(x: Seq<char>, y: Seq<char>, z: Seq<char>)
    requires
        version_sign(x, y) <= 0,
        version_sign(y, z) <= 0,
    ensures
        version_sign(x, z) <= 0,
{
    lemma_components_sign_le_trans(
        version_components(release_part(x)),
        version_components(release_part(y)),
        version_components(release_part(z)),
    );
    if let (Some(px), Some(py), Some(pz)) = (pre_release(x), pre_release(y), pre_release(z)) {
        lemma_components_sign_le_trans(
            version_components(px),
            version_components(py),
            version_components(pz),
        );
    }
}

/// A version written as numbers joined by `.`, such as `0.10.0`.
pub open spec fn dotted(xs: Seq<nat>) -> Seq<char>
    decreases xs.len(),
{
    if xs.len() == 0 {
        seq![]
    } else if xs.len() == 1 {
        crate::text::decimal(xs[0])
    } else {
        dotted(xs.drop_last()) + seq!['.'] + crate::text::decimal(xs.last())
    }
}

/// Numbers compared in order, first difference deciding, a proper prefix
/// first: -1, 0 or 1.
pub open spec fn numeric_order(xs: Seq<nat>, ys: Seq<nat>) -> int
    decreases xs.len(),
{
    if xs.len() == 0 {
        if ys.len() == 0 {
            0
        } else {
            -1
        }
    } else if ys.len() == 0 {
        1
    } else if xs[0] < ys[0] {
        -1
    } else if xs[0] > ys[0] {
        1
    } else {
        numeric_order(xs.drop_first(), ys.drop_first())
    }
}

pub open spec fn numbered(xs: Seq<nat>) -> Seq<(nat, Seq<char>)> {
    xs.map_values(|n: nat| (n, crate::text::decimal(n)))
}

proof fn lemma_scan_plain(u: Seq<char>, t: Seq<char>)
    requires
        forall|i: int| 0 <= i < t.len() ==> !is_version_sep(#[trigger] t[i]),
    ensures
        piece_scan(u + t) == (piece_scan(u).0, piece_scan(u).1 + t),
    decreases t.len(),
{
    if t.len() == 0 {
        assert(u + t =~= u);
        assert(piece_scan(u).1 + t =~= piece_scan(u).1);
    } else {
        let t0 = t.drop_last();
        assert forall|i: int| 0 <= i < t0.len() implies !is_version_sep(#[trigger] t0[i]) by {
            assert(t0[i] == t[i]);
        }
        lemma_scan_plain(u, t0);
        assert((u + t).drop_last() =~= u + t0);
        assert((u + t).last() == t[t.len() - 1]);
        assert((piece_scan(u).1 + t0).push(t.last()) =~= piece_scan(u).1 + t);
    }
}

proof fn lemma_decimal_plain(n: nat)
    ensures
        crate::text::decimal(n).len() > 0,
        forall|i: int|
            0 <= i < crate::text::decimal(n).len() ==> is_digit(#[trigger] crate::text::decimal(n)[i]),
{
    crate::text::decimal_reads_back(n);
}

proof fn lemma_dotted_scan(xs: Seq<nat>)
    requires
        xs.len() > 0,
    ensures
        piece_scan(dotted(xs)) == (
            xs.drop_last().map_values(|n: nat| crate::text::decimal(n)),
            crate::text::decimal(xs.last()),
        ),
        forall|i: int| 0 <= i < dotted(xs).len() ==> is_digit(#[trigger] dotted(xs)[i]) || dotted(xs)[i] == '.',
    decreases xs.len(),
{
    let d = crate::text::decimal(xs.last());
    lemma_decimal_plain(xs.last());
    if xs.len() == 1 {
        lemma_scan_plain(seq![], d);
        assert(Seq::<char>::empty() + d =~= d);
        assert(piece_scan(Seq::<char>::empty()) == (Seq::<Seq<char>>::empty(), Seq::<char>::empty()));
        assert(Seq::<char>::empty() + d =~= d);
        assert(xs.drop_last().map_values(|n: nat| crate::text::decimal(n)) =~= Seq::<Seq<char>>::empty());
        assert(xs.last() == xs[0]);
    } else {
        let p = xs.drop_last();
        lemma_dotted_scan(p);
        let dp = dotted(p);
        let u = dp + seq!['.'];
        assert(u.drop_last() =~= dp);
        assert(u.last() == '.');
        lemma_decimal_plain(p.last());
        assert(piece_scan(u) == (
            p.drop_last().map_values(|n: nat| crate::text::decimal(n)).push(crate::text::decimal(p.last())),
            Seq::<char>::empty(),
        ));
        assert(p.drop_last().map_values(|n: nat| crate::text::decimal(n)).push(crate::text::decimal(p.last()))
            =~= p.map_values(|n: nat| crate::text::decimal(n)));
        lemma_scan_plain(u, d);
        assert(Seq::<char>::empty() + d =~= d);
        let full = dotted(xs);
        assert(full == u + d);
        assert forall|i: int| 0 <= i < full.len() implies is_digit(#[trigger] full[i]) || full[i] == '.' by {
            if i < dp.len() {
                assert(full[i] == dp[i]);
            } else if i == dp.len() {
                assert(full[i] == '.');
            } else {
                assert(full[i] == d[i - dp.len() - 1]);
            }
        }
    }
}

proof fn lemma_dotted_components(xs: Seq<nat>)
    requires
        forall|i: int| 0 <= i < xs.len() ==> #[trigger] xs[i] <= u64::MAX,
    ensures
        version_components(release_part(dotted(xs))) == numbered(xs),
        pre_release(dotted(xs)) is None,
{
    let s = dotted(xs);
    if xs.len() == 0 {
        assert(version_pieces(s) =~= Seq::<Seq<char>>::empty());
        assert(numbered(xs) =~= Seq::<(nat, Seq<char>)>::empty());
        assert(!exists|i: int| is_first_dash(s, i));
        assert(version_components(s) =~= numbered(xs));
    } else {
        lemma_dotted_scan(xs);
        assert(!exists|i: int| is_first_dash(s, i)) by {
            if exists|i: int| is_first_dash(s, i) {
                let i = choose|i: int| is_first_dash(s, i);
                assert(is_digit(s[i]) || s[i] == '.');
            }
        }
        lemma_decimal_plain(xs.last());
        let pieces = version_pieces(s);
        assert(pieces =~= xs.map_values(|n: nat| crate::text::decimal(n)));
        assert forall|i: int| 0 <= i < xs.len() implies piece_number(
            #[trigger] crate::text::decimal(xs[i]),
        ) == xs[i] by {
            let d = crate::text::decimal(xs[i]);
            crate::text::decimal_reads_back(xs[i]);
            assert(is_digit(d[0]));
            assert(is_digit(d.last()));
            assert(drop_non_digits_start(d) == d);
            assert(drop_non_digits_end(d) == d);
            crate::text::digits_parse(d, u64::MAX as nat);
        }
        assert forall|i: int| 0 <= i < xs.len() implies #[trigger] version_components(s)[i] == numbered(
            xs,
        )[i] by {
            assert(pieces[i] == crate::text::decimal(xs[i]));
        }
        assert(version_components(s) =~= numbered(xs));
    }
}

proof fn lemma_numbered_sign(xs: Seq<nat>, ys: Seq<nat>)
    ensures
        components_sign(numbered(xs), numbered(ys)) == numeric_order(xs, ys),
    decreases xs.len(),
{
    if xs.len() > 0 && ys.len() > 0 {
        lemma_text_sign_reflexive(crate::text::decimal(xs[0]));
        assert(numbered(xs)[0] == (xs[0], crate::text::decimal(xs[0])));
        assert(numbered(ys)[0] == (ys[0], crate::text::decimal(ys[0])));
        assert(numbered(xs).drop_first() =~= numbered(xs.drop_first()));
        assert(numbered(ys).drop_first() =~= numbered(ys.drop_first()));
        lemma_numbered_sign(xs.drop_first(), ys.drop_first());
    }
}

/// Versions made of numbers compare by those numbers, not by their text:
/// `0.10.0` ranks above `0.9.0`, and a component `n + 1` above `n` for
/// every `n`.
pub proof fn dotted_versions_compare_numerically(xs: Seq<nat>, ys: Seq<nat>)
    requires
        forall|i: int| 0 <= i < xs.len() ==> #[trigger] xs[i] <= u64::MAX,
        forall|i: int| 0 <= i < ys.len() ==> #[trigger] ys[i] <= u64::MAX,
    ensures
        version_sign(dotted(xs), dotted(ys)) == numeric_order(xs, ys),
{
    lemma_dotted_components(xs);
    lemma_dotted_components(ys);
    lemma_numbered_sign(xs, ys);
}

/// Swapping the arguments of `version_cmp` reverses the result.
pub proof fn version_order_antisymmetric(a: Seq<char>, b: Seq<char>)
    ensures
        version_sign(a, b) == -version_sign(b, a),
        version_order(a, b) == reverse_order(version_order(b, a)),
{
    lemma_components_sign_antisymmetric(
        version_components(release_part(a)),
        version_components(release_part(b)),
    );
    if let (Some(x), Some(y)) = (pre_release(a), pre_release(b)) {
        lemma_components_sign_antisymmetric(version_components(x), version_components(y));
    }
}

/// Every version string compares equal to itself.
pub proof fn version_order_reflexive(a: Seq<char>)
    ensures
        version_order(a, a) == Ordering::Equal,
{
    lemma_components_sign_reflexive(version_components(release_part(a)));
    if let Some(x) = pre_release(a) {
        lemma_components_sign_reflexive(version_components(x));
    }
}

/// Swapping the arguments of the candidate order reverses it.
pub proof fn candidate_order_antisymmetric(a: DshCandidate, b: DshCandidate)
    ensures
        candidate_sign(a, b) == -candidate_sign(b, a),
{
    version_order_antisymmetric(a.version@, b.version@);
}

/// If `a` orders no later than `b` and `b` no later than `c`, then `a`
/// orders no later than `c`.
pub proof fn candidate_order_transitive(a: DshCandidate, b: DshCandidate, c: DshCandidate)
    requires
        candidate_sign(a, b) <= 0,
        candidate_sign(b, c) <= 0,
    ensures
        candidate_sign(a, c) <= 0,
{
    if source_priority(a.source) == source_priority(b.source) && source_priority(b.source)
        == source_priority(c.source) {
        version_order_transitive(c.version@, b.version@, a.version@);
    }
}

/// Ordering equal to a common candidate, two candidates order equal.
proof fn lemma_candidate_equal_trans(a: DshCandidate, b: DshCandidate, k: DshCandidate)
    requires
        candidate_sign(a, k) == 0,
        candidate_sign(b, k) == 0,
    ensures
        candidate_sign(a, b) == 0,
{
    candidate_order_antisymmetric(a, k);
    candidate_order_antisymmetric(b, k);
    candidate_order_antisymmetric(a, b);
    candidate_order_transitive(a, k, b);
    candidate_order_transitive(b, k, a);
}

proof fn lemma_insert_multiset(s: Seq<DshCandidate>, x: DshCandidate)
    ensures
        insert_stable(s, x).to_multiset() == s.to_multiset().insert(x),
        insert_stable(s, x).len() == s.len() + 1,
    decreases s.len(),
{
    broadcast use vstd::seq_lib::group_to_multiset_ensures;

    if s.len() == 0 {
        assert(seq![x] =~= Seq::<DshCandidate>::empty().push(x));
    } else {
        let d = s.drop_last();
        assert(d.push(s.last()) =~= s);
        if candidate_sign(s.last(), x) > 0 {
            lemma_insert_multiset(d, x);
        }
    }
}

/// Sorting keeps exactly the candidates it was given.
pub proof fn sort_is_permutation(s: Seq<DshCandidate>)
    ensures
        sorted_candidates(s).to_multiset() == s.to_multiset(),
        sorted_candidates(s).len() == s.len(),
    decreases s.len(),
{
    broadcast use vstd::seq_lib::group_to_multiset_ensures;

    if s.len() > 0 {
        let d = s.drop_last();
        sort_is_permutation(d);
        lemma_insert_multiset(sorted_candidates(d), s.last());
        assert(d.push(s.last()) =~= s);
    }
}

/// No candidate orders after its successor.
pub open spec fn is_best_first(s: Seq<DshCandidate>) -> bool {
    forall|i: int| 0 <= i < s.len() - 1 ==> candidate_sign(#[trigger] s[i], s[i + 1]) <= 0
}

proof fn lemma_insert_keeps_order(s: Seq<DshCandidate>, x: DshCandidate)
    requires
        is_best_first(s),
    ensures
        is_best_first(insert_stable(s, x)),
        insert_stable(s, x).len() == s.len() + 1,
        s.len() > 0 ==> (insert_stable(s, x).last() == s.last() || insert_stable(s, x).last() == x),
        s.len() > 0 && candidate_sign(s.last(), x) > 0 ==> insert_stable(s, x).last() == s.last(),
    decreases s.len(),
{
    if s.len() == 0 {
    } else if candidate_sign(s.last(), x) > 0 {
        let d = s.drop_last();
        assert(is_best_first(d)) by {
            assert forall|i: int| 0 <= i < d.len() - 1 implies candidate_sign(#[trigger] d[i], d[i + 1]) <= 0 by {
                assert(d[i] == s[i] && d[i + 1] == s[i + 1]);
            }
        }
        lemma_insert_keeps_order(d, x);
        lemma_insert_multiset(d, x);
        let r = insert_stable(d, x);
        candidate_order_antisymmetric(s.last(), x);
        if d.len() > 0 {
            assert(candidate_sign(d.last(), s.last()) <= 0) by {
                assert(d.last() == s[s.len() - 2]);
            }
        }
        assert forall|i: int| 0 <= i < r.push(s.last()).len() - 1 implies candidate_sign(
            #[trigger] r.push(s.last())[i],
            r.push(s.last())[i + 1],
        ) <= 0 by {
            if i < r.len() - 1 {
                assert(r.push(s.last())[i] == r[i] && r.push(s.last())[i + 1] == r[i + 1]);
            }
        }
    } else {
        assert forall|i: int| 0 <= i < s.push(x).len() - 1 implies candidate_sign(
            #[trigger] s.push(x)[i],
            s.push(x)[i + 1],
        ) <= 0 by {
            if i < s.len() - 1 {
                assert(s.push(x)[i] == s[i] && s.push(x)[i + 1] == s[i + 1]);
            }
        }
    }
}

/// The sorted list never has a candidate ordered after its successor.
pub proof fn sort_orders_best_first(s: Seq<DshCandidate>)
    ensures
        is_best_first(sorted_candidates(s)),
    decreases s.len(),
{
    if s.len() > 0 {
        sort_orders_best_first(s.drop_last());
        lemma_insert_keeps_order(sorted_candidates(s.drop_last()), s.last());
    }
}

proof fn lemma_best_first_pair(s: Seq<DshCandidate>, i: int, j: int)
    requires
        is_best_first(s),
        0 <= i < j < s.len(),
    ensures
        candidate_sign(s[i], s[j]) <= 0,
    decreases j - i,
{
    if j > i + 1 {
        lemma_best_first_pair(s, i, j - 1);
        assert(candidate_sign(s[j - 1], s[j]) <= 0);
        candidate_order_transitive(s[i], s[j - 1], s[j]);
    }
}

/// Sorting orders every pair: no candidate of the sorted list orders after
/// any candidate behind it (lower source priority first, then higher
/// version first).
pub proof fn sort_orders_all_pairs(s: Seq<DshCandidate>)
    ensures
        forall|i: int, j: int|
            0 <= i < j < sorted_candidates(s).len() ==> candidate_sign(
                #[trigger] sorted_candidates(s)[i],
                #[trigger] sorted_candidates(s)[j],
            ) <= 0,
{
    sort_orders_best_first(s);
    let r = sorted_candidates(s);
    assert forall|i: int, j: int| 0 <= i < j < r.len() implies candidate_sign(
        #[trigger] r[i],
        #[trigger] r[j],
    ) <= 0 by {
        lemma_best_first_pair(r, i, j);
    }
}

/// The candidates of `s` that order equal to `k`, in order.
pub open spec fn same_rank(s: Seq<DshCandidate>, k: DshCandidate) -> Seq<DshCandidate>
    decreases s.len(),
{
    if s.len() == 0 {
        s
    } else if candidate_sign(s.last(), k) == 0 {
        same_rank(s.drop_last(), k).push(s.last())
    } else {
        same_rank(s.drop_last(), k)
    }
}

proof fn lemma_insert_same_rank(sorted: Seq<DshCandidate>, x: DshCandidate, k: DshCandidate)
    ensures
        same_rank(insert_stable(sorted, x), k) == (if candidate_sign(x, k) == 0 {
            same_rank(sorted, k).push(x)
        } else {
            same_rank(sorted, k)
        }),
    decreases sorted.len(),
{
    if sorted.len() == 0 {
        assert(seq![x].drop_last() =~= sorted);
        assert(seq![x].last() == x);
    } else if candidate_sign(sorted.last(), x) > 0 {
        let d = sorted.drop_last();
        let l = sorted.last();
        lemma_insert_same_rank(d, x, k);
        let r = insert_stable(d, x);
        assert(r.push(l).drop_last() =~= r);
        assert(r.push(l).last() == l);
        if candidate_sign(x, k) == 0 && candidate_sign(l, k) == 0 {
            lemma_candidate_equal_trans(l, x, k);
        }
    } else {
        assert(sorted.push(x).drop_last() =~= sorted);
        assert(sorted.push(x).last() == x);
    }
}

/// Sorting is stable: the candidates that order equal to any given one come
/// out in the order they went in.
pub proof fn sort_is_stable(s: Seq<DshCandidate>, k: DshCandidate)
    ensures
        same_rank(sorted_candidates(s), k) == same_rank(s, k),
    decreases s.len(),
{
    if s.len() > 0 {
        sort_is_stable(s.drop_last(), k);
        lemma_insert_same_rank(sorted_candidates(s.drop_last()), s.last(), k);
    }
}

proof fn lemma_priority_chain(s: Seq<DshCandidate>, k: int)
    requires
        is_best_first(s),
        0 <= k < s.len(),
    ensures
        source_priority(s[0].source) <= source_priority(s[k].source),
    decreases k,
{
    if k > 0 {
        lemma_priority_chain(s, k - 1);
        assert(candidate_sign(s[k - 1], s[k]) <= 0);
    }
}

/// In a best-first list the first candidate has the lowest source priority,
/// so a user-specified candidate, when there is one, comes first.
pub proof fn best_first_starts_most_trusted(s: Seq<DshCandidate>)
    requires
        is_best_first(s),
    ensures
        forall|k: int|
            0 <= k < s.len() ==> source_priority(s[0].source) <= source_priority(
                #[trigger] s[k].source,
            ),
{
    assert forall|k: int| 0 <= k < s.len() implies source_priority(s[0].source) <= source_priority(
        #[trigger] s[k].source,
    ) by {
        lemma_priority_chain(s, k);
    }
}

// ---------------------------------------------------------------------------
// Version detection output
// ---------------------------------------------------------------------------
/// `str::trim_start_matches('v')`.
pub open spec fn strip_leading_v(s: Seq<char>) -> Seq<char>
    decreases s.len(),
{
    if s.len() > 0 && s[0] == 'v' {
        strip_leading_v(s.drop_first())
    } else {
        s
    }
}

/// A token that reads as a version: after its leading `v`s it starts with a
/// digit and contains a `.`.
pub open spec fn is_version_token(t: Seq<char>) -> bool {
    let core = strip_leading_v(t);
    core.len() > 0 && is_digit(core[0]) && core.contains('.')
}

/// The first version token among `toks`, without its leading `v`s.
pub open spec fn first_version(toks: Seq<Seq<char>>) -> Option<Seq<char>>
    decreases toks.len(),
{
    if toks.len() == 0 {
        None
    } else if is_version_token(toks[0]) {
        Some(strip_leading_v(toks[0]))
    } else {
        first_version(toks.drop_first())
    }
}

/// The first semver-ish token of a version command's output.
pub open spec fn version_in(text: Seq<char>) -> Option<Seq<char>> {
    first_version(ws_tokens(text))
}

/// Pull the first semver-ish token out of a version command's output.
pub fn parse_version(text: &str) -> (r: Option<String>)
    ensures
        match r {
            Some(v) => version_in(text@) == Some(v@),
            None => version_in(text@) is None,
        },
{
    let toks = split_whitespace(&chars_of(text));
    let ghost ts = ws_tokens(text@);
    let mut i: usize = 0;
    assert(ts.subrange(0, ts.len() as int) =~= ts);
    while i < toks.len()
        invariant
            i <= toks.len(),
            views(toks@) == ts,
            ts == ws_tokens(text@),
            first_version(ts) == first_version(ts.subrange(i as int, ts.len() as int)),
        decreases toks.len() - i,
    {
        let t = &toks[i];
        assert(ts[i as int] == t@);
        let mut k: usize = 0;
        assert(t@.subrange(0, t.len() as int) =~= t@);
        while k < t.len() && t[k] == 'v'
            invariant
                k <= t.len(),
                strip_leading_v(t@) == strip_leading_v(t@.subrange(k as int, t.len() as int)),
            decreases t.len() - k,
        {
            assert(t@.subrange(k as int, t.len() as int).drop_first() =~= t@.subrange(
                k + 1 as int,
                t.len() as int,
            ));
            k = k + 1;
        }
        assert(t@.subrange(0, t.len() as int) =~= t@);
        let core = slice_chars(t, k, t.len());
        assert(ts.subrange(i as int, ts.len() as int)[0] == t@);
        assert(ts.subrange(i as int, ts.len() as int).drop_first() =~= ts.subrange(
            i + 1 as int,
            ts.len() as int,
        ));
        if core.len() > 0 && is_ascii_digit(core[0]) && contains_char(&core, '.') {
            return Some(string_of(&core));
        }
        i = i + 1;
    }
    None
}

// ---------------------------------------------------------------------------
// Duplicate executables
// ---------------------------------------------------------------------------
pub open spec fn executables(s: Seq<DshCandidate>) -> Seq<Seq<char>> {
    s.map_values(|c: DshCandidate| c.executable@)
}

/// `s` with every candidate dropped whose executable occurred earlier.
pub open spec fn first_occurrences(s: Seq<DshCandidate>) -> Seq<DshCandidate>
    decreases s.len(),
{
    if s.len() == 0 {
        s
    } else {
        let d = first_occurrences(s.drop_last());
        if executables(d).contains(s.last().executable@) {
            d
        } else {
            d.push(s.last())
        }
    }
}

/// Whether some candidate of `cs` has the executable `exec`.
pub fn has_executable(cs: &Vec<DshCandidate>, exec: &String) -> (r: bool)
    ensures
        r == executables(cs@).contains(exec@),
{
    let mut i: usize = 0;
    while i < cs.len()
        invariant
            i <= cs.len(),
            forall|k: int| 0 <= k < i ==> cs@[k].executable@ != exec@,
        decreases cs.len() - i,
    {
        if cs[i].executable == *exec {
            assert(executables(cs@)[i as int] == exec@);
            return true;
        }
        i = i + 1;
    }
    assert forall|k: int| 0 <= k < executables(cs@).len() implies executables(cs@)[k] != exec@ by {
        assert(executables(cs@)[k] == cs@[k].executable@);
    }
    false
}

/// Drop duplicate executables (keep the first occurrence).
pub fn dedupe(candidates: &mut Vec<DshCandidate>)
    ensures
        final(candidates)@ == first_occurrences(old(candidates)@),
{
    let ghost input = candidates@;
    let mut out: Vec<DshCandidate> = Vec::new();
    let mut i: usize = 0;
    while i < candidates.len()
        invariant
            i <= candidates.len(),
            candidates@ == input,
            out@ == first_occurrences(input.subrange(0, i as int)),
        decreases candidates.len() - i,
    {
        assert(input.subrange(0, i + 1 as int).drop_last() =~= input.subrange(0, i as int));
        assert(input.subrange(0, i + 1 as int).last() == input[i as int]);
        if !has_executable(&out, &candidates[i].executable) {
            out.push(candidates[i].clone());
        }
        i = i + 1;
    }
    assert(input.subrange(0, input.len() as int) =~= input);
    *candidates = out;
}

/// After `dedupe` no executable occurs twice.
pub proof fn first_occurrences_unique(s: Seq<DshCandidate>)
    ensures
        executables(first_occurrences(s)).no_duplicates(),
        executables(first_occurrences(s)).to_set() == executables(s).to_set(),
    decreases s.len(),
{
    if s.len() > 0 {
        let d = first_occurrences(s.drop_last());
        first_occurrences_unique(s.drop_last());
        assert(executables(d.push(s.last())) =~= executables(d).push(s.last().executable@));
        assert(executables(s) =~= executables(s.drop_last()).push(s.last().executable@));
        executables(d).lemma_push_to_set_commute(s.last().executable@);
        executables(s.drop_last()).lemma_push_to_set_commute(s.last().executable@);
        if executables(d).contains(s.last().executable@) {
            assert(executables(d).to_set().contains(s.last().executable@));
            assert(executables(first_occurrences(s)).to_set() =~= executables(s).to_set());
        }
    } else {
        assert(executables(first_occurrences(s)) =~= Seq::<Seq<char>>::empty());
    }
}

proof fn lemma_first_occurrences_from(s: Seq<DshCandidate>, p: spec_fn(DshCandidate) -> bool)
    requires
        forall|i: int| 0 <= i < s.len() ==> p(#[trigger] s[i]),
    ensures
        forall|i: int|
            0 <= i < first_occurrences(s).len() ==> p(#[trigger] first_occurrences(s)[i]),
    decreases s.len(),
{
    if s.len() > 0 {
        let d = s.drop_last();
        assert forall|i: int| 0 <= i < d.len() implies p(#[trigger] d[i]) by {
            assert(d[i] == s[i]);
        }
        lemma_first_occurrences_from(d, p);
        assert(p(s[s.len() - 1]));
        let f = first_occurrences(d);
        assert forall|i: int| 0 <= i < first_occurrences(s).len() implies p(
            #[trigger] first_occurrences(s)[i],
        ) by {
            if i < f.len() {
                assert(first_occurrences(s)[i] == f[i]);
            } else {
                assert(first_occurrences(s)[i] == s.last());
            }
        }
    }
}

/// What holds of every candidate found holds of every candidate reported
/// (duplicates dropped, then sorted).
pub proof fn reported_candidates_come_from_found(
    found: Seq<DshCandidate>,
    p: spec_fn(DshCandidate) -> bool,
)
    requires
        forall|i: int| 0 <= i < found.len() ==> p(#[trigger] found[i]),
    ensures
        forall|i: int|
            0 <= i < sorted_candidates(first_occurrences(found)).len() ==> p(
                #[trigger] sorted_candidates(first_occurrences(found))[i],
            ),
{
    broadcast use vstd::seq_lib::group_to_multiset_ensures;

    let d = first_occurrences(found);
    lemma_first_occurrences_from(found, p);
    sort_is_permutation(d);
    let r = sorted_candidates(d);
    assert forall|i: int| 0 <= i < r.len() implies p(#[trigger] r[i]) by {
        assert(r.to_multiset().count(r[i]) > 0);
        assert(d.to_multiset().count(r[i]) > 0);
        assert(d.contains(r[i]));
        let k = choose|k: int| 0 <= k < d.len() && d[k] == r[i];
        assert(p(d[k]));
    }
}

proof fn lemma_insert_executables(s: Seq<DshCandidate>, x: DshCandidate)
    ensures
        executables(insert_stable(s, x)).to_multiset() == executables(s).to_multiset().insert(
            x.executable@,
        ),
    decreases s.len(),
{
    broadcast use vstd::seq_lib::group_to_multiset_ensures;

    if s.len() == 0 {
        assert(executables(seq![x]) =~= Seq::<Seq<char>>::empty().push(x.executable@));
        assert(executables(s) =~= Seq::<Seq<char>>::empty());
    } else {
        let d = s.drop_last();
        assert(executables(s) =~= executables(d).push(s.last().executable@));
        if candidate_sign(s.last(), x) > 0 {
            lemma_insert_executables(d, x);
            assert(executables(insert_stable(d, x).push(s.last())) =~= executables(
                insert_stable(d, x),
            ).push(s.last().executable@));
        } else {
            assert(executables(s.push(x)) =~= executables(s).push(x.executable@));
        }
    }
}

proof fn lemma_sorted_executables(s: Seq<DshCandidate>)
    ensures
        executables(sorted_candidates(s)).to_multiset() == executables(s).to_multiset(),
    decreases s.len(),
{
    broadcast use vstd::seq_lib::group_to_multiset_ensures;

    if s.len() > 0 {
        let d = s.drop_last();
        lemma_sorted_executables(d);
        lemma_insert_executables(sorted_candidates(d), s.last());
        assert(executables(s) =~= executables(d).push(s.last().executable@));
    } else {
        assert(executables(sorted_candidates(s)) =~= executables(s));
    }
}

/// The candidates a location pass reports (duplicates dropped, then sorted)
/// name each executable once, are ordered best-first, and lose no
/// executable that was found.
pub proof fn reported_candidates_distinct_and_best_first(found: Seq<DshCandidate>)
    ensures
        executables(sorted_candidates(first_occurrences(found))).no_duplicates(),
        executables(sorted_candidates(first_occurrences(found))).to_set() == executables(
            found,
        ).to_set(),
        is_best_first(sorted_candidates(first_occurrences(found))),
{
    let d = first_occurrences(found);
    first_occurrences_unique(found);
    lemma_sorted_executables(d);
    sort_orders_best_first(d);
    let e = executables(d);
    let es = executables(sorted_candidates(d));
    e.lemma_multiset_has_no_duplicates();
    assert forall|x: Seq<char>| es.to_multiset().contains(x) implies es.to_multiset().count(x)
        == 1 by {}
    es.lemma_multiset_has_no_duplicates_conv();
    e.to_multiset_ensures();
    es.to_multiset_ensures();
    assert forall|x: Seq<char>| es.to_set().contains(x) <==> e.to_set().contains(x) by {
        assert(es.contains(x) <==> es.to_multiset().count(x) > 0);
        assert(e.contains(x) <==> e.to_multiset().count(x) > 0);
    }
    assert(es.to_set() =~= e.to_set());
}

} // verus!
