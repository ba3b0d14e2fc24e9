//! The readiness probe: the request it sends, how a reply is read, and the
//! signature that tells a dsh web instance from another local server.
use crate::text::{
    chars_of, decimal, has_prefix, lines, lines_of, lossy_text, parse_i32_chars,
    parse_signed, parse_unsigned, parse_unsigned_chars, push_chars, push_decimal,
    split_whitespace, starts_with, trim, trim_chars, utf8_lossy, ws_tokens,
};
use vstd::prelude::*;

verus! {

broadcast use vstd::string::group_string_axioms;

/// The status code of an HTTP response head: the second white-space
/// separated token of its first line, when the first token starts with
/// `HTTP/` and the second is a `u16`.
pub open spec fn status_code(head: Seq<char>) -> Option<nat> {
    let ls = lines(head);
    if ls.len() == 0 {
        None
    } else {
        let toks = ws_tokens(ls[0]);
        if toks.len() < 1 || !has_prefix(toks[0], "HTTP/"@) {
            None
        } else if toks.len() < 2 {
            None
        } else {
            parse_unsigned(toks[1], 65535)
        }
    }
}

/// Extract the HTTP status code from the head of an HTTP response.
///
/// Returns e.g. `Some(200)` for `"HTTP/1.1 200 OK\r\n..."`, `None` when the
/// payload does not start with a well-formed status line.
pub fn parse_status_code(head: &str) -> (r: Option<u16>)
    ensures
        match r {
            Some(c) => status_code(head@) == Some(c as nat),
            None => status_code(head@) is None,
        },
{
    let ls = lines_of(&chars_of(head));
    if ls.len() == 0 {
        return None;
    }
    assert(lines(head@)[0] == ls@[0]@);
    let toks = split_whitespace(&ls[0]);
    if toks.len() < 1 {
        return None;
    }
    assert(ws_tokens(ls@[0]@)[0] == toks@[0]@);
    let http = chars_of("HTTP/");
    if !starts_with(&toks[0], &http) {
        return None;
    }
    if toks.len() < 2 {
        return None;
    }
    assert(ws_tokens(ls@[0]@)[1] == toks@[1]@);
    match parse_unsigned_chars(&toks[1], 65535) {
        Some(n) => Some(n as u16),
        None => None,
    }
}

/// The text of a minimal HTTP/1.0 `GET` of `path` on `host:port`.
pub open spec fn probe_request_text(host: Seq<char>, port: nat, path: Seq<char>) -> Seq<char> {
    "GET "@ + path + " HTTP/1.0\r\nHost: "@ + host + seq![':'] + decimal(port)
        + "\r\nConnection: close\r\nAccept: */*\r\n\r\n"@
}

/// The request `http_probe` sends.
pub fn probe_request(host: &str, port: u16, path: &str) -> (r: String)
    ensures
        r@ == probe_request_text(host@, port as nat, path@),
{
    let mut s = String::from_str("GET ");
    push_chars(&mut s, &chars_of(path));
    push_chars(&mut s, &chars_of(" HTTP/1.0\r\nHost: "));
    push_chars(&mut s, &chars_of(host));
    s.push(':');
    push_decimal(&mut s, port as u64);
    push_chars(&mut s, &chars_of("\r\nConnection: close\r\nAccept: */*\r\n\r\n"));
    s
}

/// The status code of the first bytes of a reply (read as lossy UTF-8).
pub fn probe_status(reply: &[u8]) -> (r: Option<u16>)
    ensures
        match r {
            Some(c) => status_code(lossy_text(reply@)) == Some(c as nat),
            None => status_code(lossy_text(reply@)) is None,
        },
{
    let text = utf8_lossy(reply);
    parse_status_code(text.as_str())
}

/// Whether the three probes answered as a dsh web instance does: `GET /`
/// and `GET /manifest.webmanifest` give 200, and `GET /api` gives 404.
pub open spec fn signature_holds(root: Option<u16>, manifest: Option<u16>, api: Option<u16>) -> bool {
    root == Some(200u16) && manifest == Some(200u16) && api == Some(404u16)
}

/// Signature test for "a dsh web instance is serving on this port", given
/// the status codes of `GET /`, `GET /manifest.webmanifest` and `GET /api`
/// (`None` when a probe got no answer).
pub fn dsh_signature_ok(root: Option<u16>, manifest: Option<u16>, api: Option<u16>) -> (r: bool)
    ensures
        r == signature_holds(root, manifest, api),
{
    root == Some(200u16) && manifest == Some(200u16) && api == Some(404u16)
}

/// The next move of the signature test.
#[derive(Debug, PartialEq, Eq)]
pub enum SignatureStep {
    /// Probe this path next.
    Probe(String),
    /// The test is decided.
    Verdict(bool),
}

/// The paths the signature test probes, in order.
pub open spec fn signature_path(i: int) -> Seq<char> {
    if i == 0 {
        "/"@
    } else if i == 1 {
        "/manifest.webmanifest"@
    } else {
        "/api"@
    }
}

/// The signature test driven one probe at a time, given the answers so far:
/// it stops at the first answer that rules dsh out, as the probes are made
/// lazily.
pub fn signature_step(answers: &[Option<u16>]) -> (r: SignatureStep)
    requires
        answers@.len() <= 3,
    ensures
        answers@.len() >= 1 && answers@[0] != Some(200u16) ==> r == SignatureStep::Verdict(false),
        answers@.len() >= 2 && answers@[0] == Some(200u16) && answers@[1] != Some(200u16) ==> r
            == SignatureStep::Verdict(false),
        answers@.len() == 3 && answers@[0] == Some(200u16) && answers@[1] == Some(200u16) ==> r
            == SignatureStep::Verdict(signature_holds(answers@[0], answers@[1], answers@[2])),
        answers@.len() < 3 && (forall|k: int| 0 <= k < answers@.len() ==> answers@[k] == Some(200u16))
            ==> (r matches SignatureStep::Probe(p) && p@ == signature_path(answers@.len() as int)),
{
    if answers.len() >= 1 && answers[0] != Some(200u16) {
        return SignatureStep::Verdict(false);
    }
    if answers.len() == 0 {
        return SignatureStep::Probe(String::from_str("/"));
    }
    if answers.len() >= 2 && answers[1] != Some(200u16) {
        return SignatureStep::Verdict(false);
    }
    if answers.len() == 1 {
        return SignatureStep::Probe(String::from_str("/manifest.webmanifest"));
    }
    if answers.len() == 2 {
        return SignatureStep::Probe(String::from_str("/api"));
    }
    SignatureStep::Verdict(dsh_signature_ok(answers[0], answers[1], answers[2]))
}

// ---------------------------------------------------------------------------
// Process listings
// ---------------------------------------------------------------------------
/// The tokens of `toks` that parse as `i32`, parsed, in order.
pub open spec fn parsed_pids(toks: Seq<Seq<char>>) -> Seq<int>
    decreases toks.len(),
{
    if toks.len() == 0 {
        Seq::empty()
    } else {
        let p = parsed_pids(toks.drop_last());
        match parse_signed(toks.last(), i32::MIN as int, i32::MAX as int) {
            Some(n) => p.push(n),
            None => p,
        }
    }
}

pub open spec fn pid_views(v: Seq<i32>) -> Seq<int> {
    v.map_values(|x: i32| x as int)
}

/// The process ids `lsof -ti` printed: every white-space separated token
/// that parses as an `i32`.
pub fn parse_pids(stdout: &[u8]) -> (r: Vec<i32>)
    ensures
        pid_views(r@) == parsed_pids(ws_tokens(lossy_text(stdout@))),
{
    let text = utf8_lossy(stdout);
    let toks = split_whitespace(&chars_of(text.as_str()));
    let ghost tv = ws_tokens(lossy_text(stdout@));
    let mut out: Vec<i32> = Vec::new();
    let mut i: usize = 0;
    while i < toks.len()
        invariant
            i <= toks.len(),
            tv.len() == toks@.len(),
            forall|k: int| 0 <= k < toks@.len() ==> tv[k] == #[trigger] toks@[k]@,
            pid_views(out@) == parsed_pids(tv.take(i as int)),
        decreases toks.len() - i,
    {
        assert(tv.take(i + 1).drop_last() =~= tv.take(i as int));
        assert(tv.take(i + 1).last() == toks@[i as int]@);
        let ghost before = out@;
        if let Some(pid) = parse_i32_chars(&toks[i]) {
            out.push(pid);
            assert(pid_views(out@) =~= pid_views(before).push(pid as int));
        }
        i = i + 1;
    }
    assert(tv.take(toks.len() as int) =~= tv);
    out
}

/// Whether `pgrep -g` listed any process (its output is not blank).
pub fn group_alive(stdout: &[u8]) -> (r: bool)
    ensures
        r == (trim(lossy_text(stdout@)).len() > 0),
{
    let text = utf8_lossy(stdout);
    trim_chars(&chars_of(text.as_str())).len() > 0
}

// ---------------------------------------------------------------------------
// Standard error capture
// ---------------------------------------------------------------------------
/// How many trailing bytes of a child's standard error are kept.
pub const STDERR_CAPACITY: usize = 16384;

/// The last `cap` elements of `s` (all of it when it is shorter).
pub open spec fn last_bytes(s: Seq<u8>, cap: int) -> Seq<u8> {
    if s.len() > cap {
        s.subrange(s.len() - cap, s.len() as int)
    } else {
        s
    }
}

/// The bounded tail of a child's standard error. A reader appends each chunk
/// as it arrives, so the pipe never fills; only the last `STDERR_CAPACITY`
/// bytes are kept.
pub struct StderrCapture {
    buf: Vec<u8>,
}

impl StderrCapture {
    /// The bytes kept.
    pub closed spec fn bytes(&self) -> Seq<u8> {
        self.buf@
    }

    /// At most `STDERR_CAPACITY` bytes are kept.
    pub closed spec fn wf(&self) -> bool {
        self.buf@.len() <= STDERR_CAPACITY
    }

    /// An empty capture.
    pub fn new() -> (r: Self)
        ensures
            r.wf(),
            r.bytes() == Seq::<u8>::empty(),
    {
        StderrCapture { buf: Vec::new() }
    }

    /// Append a chunk, keeping only the last `STDERR_CAPACITY` bytes.
    pub fn append(&mut self, chunk: &[u8])
        requires
            old(self).wf(),
        ensures
            final(self).wf(),
            final(self).bytes() == last_bytes(
                old(self).bytes() + chunk@,
                STDERR_CAPACITY as int,
            ),
    {
        let ghost all = self.buf@ + chunk@;
        let total = self.buf.len() as u128 + chunk.len() as u128;
        let mut next: Vec<u8> = Vec::new();
        // Index in `all` of the first byte kept.
        let start: u128 = if total > STDERR_CAPACITY as u128 {
            total - STDERR_CAPACITY as u128
        } else {
            0
        };
        let mut i: u128 = start;
        while i < total
            invariant
                start <= i <= total,
                total == all.len(),
                all == self.buf@ + chunk@,
                start == (if total > STDERR_CAPACITY { total - STDERR_CAPACITY } else { 0 }),
                next@ == all.subrange(start as int, i as int),
            decreases total - i,
        {
            let b = if i < self.buf.len() as u128 {
                self.buf[i as usize]
            } else {
                chunk[(i - self.buf.len() as u128) as usize]
            };
            assert(b == all[i as int]);
            next.push(b);
            assert(next@ =~= all.subrange(start as int, i + 1 as int));
            i = i + 1;
        }
        assert(all.subrange(0, total as int) =~= all);
        self.buf = next;
    }

    /// The captured text: lossy UTF-8, trimmed.
    pub fn tail(&self) -> (r: String)
        ensures
            r@ == trim(lossy_text(self.bytes())),
    {
        let text = utf8_lossy(self.buf.as_slice());
        crate::text::string_of(&trim_chars(&chars_of(text.as_str())))
    }
}

/// Every one of the three probes must answer as dsh web does for a server to
/// be taken for dsh: a manifest probe (`/manifest.webmanifest`, the second
/// path probed) that answers anything but 200, or does not answer, rules the
/// server out whatever `/` and `/api` answer; so does a root probe other than
/// 200 and an `/api` probe other than 404. The three dsh answers are
/// accepted.
pub proof fn signature_needs_every_probe(root: Option<u16>, manifest: Option<u16>, api: Option<u16>)
    ensures
        signature_path(1) == "/manifest.webmanifest"@,
        manifest != Some(200u16) ==> !signature_holds(root, manifest, api),
        root != Some(200u16) ==> !signature_holds(root, manifest, api),
        api != Some(404u16) ==> !signature_holds(root, manifest, api),
        signature_holds(Some(200u16), Some(200u16), Some(404u16)),
{
}

} // verus!
