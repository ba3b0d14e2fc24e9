//! Paths as text: joining, `~` expansion, and the locations the launcher and
//! dsh keep their files in. Values that come from the environment (`HOME`,
//! `DSH_HOME`) are passed in, `None` standing for an unset variable.
use crate::text::{chars_of, has_prefix, push_chars, string_of, trim, trim_chars};
use vstd::prelude::*;

verus! {

broadcast use vstd::string::group_string_axioms;

pub open spec fn is_absolute(p: Seq<char>) -> bool {
    p.len() > 0 && p[0] == '/'
}

/// `PathBuf::push`: an absolute `rest` replaces `base`; otherwise `rest` is
/// appended, with a `/` between them unless `base` is empty or ends in one.
pub open spec fn joined(base: Seq<char>, rest: Seq<char>) -> Seq<char> {
    if is_absolute(rest) {
        rest
    } else if base.len() == 0 {
        rest
    } else if base.last() == '/' {
        base + rest
    } else {
        base + seq!['/'] + rest
    }
}

/// Whether a path is absolute (starts at the root).
pub fn path_is_absolute(p: &str) -> (r: bool)
    ensures
        r == is_absolute(p@),
{
    let v = chars_of(p);
    v.len() > 0 && v[0] == '/'
}

/// `base` joined with `rest` (`Path::join`).
pub fn path_join(base: &str, rest: &str) -> (r: String)
    ensures
        r@ == joined(base@, rest@),
{
    let b = chars_of(base);
    let t = chars_of(rest);
    if t.len() > 0 && t[0] == '/' {
        return string_of(&t);
    }
    let mut out = string_of(&b);
    if b.len() > 0 && b[b.len() - 1] != '/' {
        out.push('/');
    }
    push_chars(&mut out, &t);
    proof {
        if b.len() > 0 && b@.last() != '/' {
            assert(out@ =~= base@ + seq!['/'] + rest@);
        } else {
            assert(out@ =~= base@ + rest@);
        }
    }
    out
}

/// Resolve `~` in a candidate path against `home`.
pub open spec fn expanded(path: Seq<char>, home: Seq<char>) -> Seq<char> {
    if has_prefix(path, "~/"@) {
        joined(home, path.subrange(2, path.len() as int))
    } else if path == "~"@ {
        home
    } else {
        path
    }
}

/// Resolve `~` in a candidate path against `home`.
pub fn expand_home(path: &str, home: &str) -> (r: String)
    ensures
        r@ == expanded(path@, home@),
{
    proof {
        reveal_strlit("~/");
        reveal_strlit("~");
    }
    let v = chars_of(path);
    if v.len() >= 2 && v[0] == '~' && v[1] == '/' {
        assert(v@.subrange(0, 2) =~= "~/"@);
        let rest = string_of(&crate::text::slice_chars(&v, 2, v.len()));
        return path_join(home, rest.as_str());
    }
    proof {
        if has_prefix(v@, "~/"@) {
            assert(v@.subrange(0, 2)[0] == '~');
            assert(v@.subrange(0, 2)[1] == '/');
        }
    }
    if v.len() == 1 && v[0] == '~' {
        assert(v@ =~= "~"@);
        return String::from_str(home);
    }
    proof {
        if v@ == "~"@ {
            assert(v@[0] == '~');
        }
    }
    String::from_str(path)
}

/// The home directory: `$HOME`, or `/` when it is unset.
pub open spec fn home_or_root(home_env: Option<Seq<char>>) -> Seq<char> {
    match home_env {
        Some(h) => h,
        None => "/"@,
    }
}

/// The home directory given the value of `HOME` (`/` when unset).
pub fn home_dir(home_env: Option<String>) -> (r: String)
    ensures
        r@ == home_or_root(opt_view(home_env)),
{
    match home_env {
        Some(h) => h,
        None => String::from_str("/"),
    }
}

pub open spec fn opt_view(o: Option<String>) -> Option<Seq<char>> {
    match o {
        Some(s) => Some(s@),
        None => None,
    }
}

/// Absolute path to the workspace registry file for a given dsh home.
pub fn workspace_storage_path(home: &str) -> (r: String)
    ensures
        r@ == joined(joined(home@, "storages"@), "workspace.json"@),
{
    let s = path_join(home, "storages");
    path_join(s.as_str(), "workspace.json")
}

/// Absolute path to the sessions root for a given dsh home.
pub fn sessions_root(home: &str) -> (r: String)
    ensures
        r@ == joined(home@, "sessions"@),
{
    path_join(home, "sessions")
}

/// The effective dsh storage root: `$DSH_HOME` when it is not blank (trimmed),
/// else `<$HOME or />/.dsh`.
pub open spec fn dsh_home_path(dsh_home_env: Option<Seq<char>>, home_env: Option<Seq<char>>) -> Seq<
    char,
> {
    match dsh_home_env {
        Some(v) if trim(v).len() > 0 => trim(v),
        _ => joined(home_or_root(home_env), ".dsh"@),
    }
}

/// Resolve the effective dsh home (storage root) from `DSH_HOME` and `HOME`.
pub fn dsh_home(dsh_home_env: Option<String>, home_env: Option<String>) -> (r: String)
    ensures
        r@ == dsh_home_path(opt_view(dsh_home_env), opt_view(home_env)),
{
    if let Some(v) = &dsh_home_env {
        let t = trim_chars(&chars_of(v.as_str()));
        if t.len() > 0 {
            return string_of(&t);
        }
    }
    let h = home_dir(home_env);
    path_join(h.as_str(), ".dsh")
}

/// Settings directory: `<home>/Library/Application Support/<identifier>`.
pub open spec fn settings_dir_path(home_env: Option<Seq<char>>, identifier: Seq<char>) -> Seq<char> {
    joined(joined(joined(home_or_root(home_env), "Library"@), "Application Support"@), identifier)
}

/// Settings directory: `~/Library/Application Support/<identifier>`.
pub fn settings_dir(home_env: Option<String>, identifier: &str) -> (r: String)
    ensures
        r@ == settings_dir_path(opt_view(home_env), identifier@),
{
    let h = home_dir(home_env);
    let a = path_join(h.as_str(), "Library");
    let b = path_join(a.as_str(), "Application Support");
    path_join(b.as_str(), identifier)
}

/// Settings file path inside the settings directory.
pub fn settings_path(home_env: Option<String>, identifier: &str) -> (r: String)
    ensures
        r@ == joined(settings_dir_path(opt_view(home_env), identifier@), "settings.json"@),
{
    let d = settings_dir(home_env, identifier);
    path_join(d.as_str(), "settings.json")
}

/// Logs directory for the given bundle identifier: `~/Library/Logs/<identifier>`.
pub fn logs_dir(home_env: Option<String>, identifier: &str) -> (r: String)
    ensures
        r@ == joined(joined(joined(home_or_root(opt_view(home_env)), "Library"@), "Logs"@), identifier@),
{
    let h = home_dir(home_env);
    let a = path_join(h.as_str(), "Library");
    let b = path_join(a.as_str(), "Logs");
    path_join(b.as_str(), identifier)
}

} // verus!
