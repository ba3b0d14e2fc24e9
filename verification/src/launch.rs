//! Constructing the `dsh web` launch command and the launcher's settings.
//!
//! The command follows dsh's CLI:
//!   `<node> <dsh> web --host 127.0.0.1 --port <port> --no-open [--profile <p>]`
//! `--no-open` is required so dsh does not spawn its own system browser.
use crate::candidate::{clone_opt_string, DshCandidate};
use crate::paths::opt_view;
use crate::text::{chars_of, decimal, push_decimal, string_of, string_views, trim, trim_chars};
use vstd::prelude::*;

verus! {

broadcast use vstd::string::group_string_axioms;

/// Default loopback port.
pub const DEFAULT_PORT: u16 = 3080;

/// Default bind host (loopback-only trust fence).
pub const DEFAULT_HOST: &'static str = "127.0.0.1";

/// Launcher-owned settings (not dsh's runtime data).
#[derive(Debug, PartialEq, Eq)]
pub struct AppSettings {
    /// Tier 0: user-chosen dsh executable (absolute or ~/...).
    pub dsh_path: Option<String>,
    /// Optional explicit node runtime.
    pub node_path: Option<String>,
    /// Listen port dsh binds.
    pub port: u16,
    /// Optional `--profile` passed to `dsh web`.
    pub profile: Option<String>,
    /// Where the active dsh_path came from (diagnostics).
    pub source: String,
}

/// The port a settings file without one uses.
pub fn default_port() -> (p: u16)
    ensures
        p == DEFAULT_PORT,
{
    DEFAULT_PORT
}

impl Default for AppSettings {
    fn default() -> (s: Self)
        ensures
            s.dsh_path is None,
            s.node_path is None,
            s.port == DEFAULT_PORT,
            s.profile is None,
            s.source@ == Seq::<char>::empty(),
    {
        AppSettings {
            dsh_path: None,
            node_path: None,
            port: DEFAULT_PORT,
            profile: None,
            source: String::new(),
        }
    }
}

impl Clone for AppSettings {
    fn clone(&self) -> (r: Self)
        ensures
            r == *self,
    {
        AppSettings {
            dsh_path: clone_opt_string(&self.dsh_path),
            node_path: clone_opt_string(&self.node_path),
            port: self.port,
            profile: clone_opt_string(&self.profile),
            source: self.source.clone(),
        }
    }
}

/// One variable of the spawn environment.
#[derive(Debug, PartialEq, Eq)]
pub struct EnvVar {
    pub key: String,
    pub value: String,
}

/// A fully-resolved command to spawn (program + args + env + cwd).
#[derive(Debug, PartialEq, Eq)]
pub struct LaunchPlan {
    pub program: String,
    pub args: Vec<String>,
    pub env: Vec<EnvVar>,
    pub cwd: String,
}

pub open spec fn env_views(v: Seq<EnvVar>) -> Seq<(Seq<char>, Seq<char>)> {
    v.map_values(|e: EnvVar| (e.key@, e.value@))
}

/// The node runtime the launcher will use: explicit setting wins, then the
/// candidate's resolved node (from the dsh shebang).
pub open spec fn node_choice(settings: AppSettings, candidate: DshCandidate) -> Option<String> {
    match settings.node_path {
        Some(n) => Some(n),
        None => candidate.node,
    }
}

/// The node runtime the launcher will use: explicit setting wins, then the
/// candidate's resolved node (from the dsh shebang).
pub fn resolve_node(settings: &AppSettings, candidate: &DshCandidate) -> (r: Option<String>)
    ensures
        r == node_choice(*settings, *candidate),
{
    match &settings.node_path {
        Some(n) => Some(n.clone()),
        None => clone_opt_string(&candidate.node),
    }
}

/// The arguments of `dsh web` after the program: the dsh script when a node
/// runtime runs it, then the fixed flags, then an optional profile.
pub open spec fn launch_args(settings: AppSettings, candidate: DshCandidate) -> Seq<Seq<char>> {
    let script: Seq<Seq<char>> = match node_choice(settings, candidate) {
        Some(_) => seq![candidate.executable@],
        None => seq![],
    };
    let flags: Seq<Seq<char>> = seq![
        "web"@,
        "--host"@,
        "127.0.0.1"@,
        "--port"@,
        decimal(settings.port as nat),
        "--no-open"@,
    ];
    let profile: Seq<Seq<char>> = match settings.profile {
        Some(p) => seq!["--profile"@, p@],
        None => seq![],
    };
    script + flags + profile
}

/// The program to spawn: the node runtime when there is one, else dsh itself.
pub open spec fn launch_program(settings: AppSettings, candidate: DshCandidate) -> Seq<char> {
    match node_choice(settings, candidate) {
        Some(n) => n@,
        None => candidate.executable@,
    }
}

/// Build the launch plan for a resolved candidate; `env` is the spawn
/// environment (see `build_env_snapshot`) and `home` the working directory.
pub fn build_launch_plan(
    candidate: &DshCandidate,
    settings: &AppSettings,
    home: &str,
    env: Vec<EnvVar>,
) -> (plan: LaunchPlan)
    ensures
        plan.program@ == launch_program(*settings, *candidate),
        string_views(plan.args@) == launch_args(*settings, *candidate),
        plan.env == env,
        plan.cwd@ == home@,
{
    let node = resolve_node(settings, candidate);
    let mut args: Vec<String> = Vec::new();
    let program = match node {
        Some(n) => {
            args.push(candidate.executable.clone());
            n
        },
        None => candidate.executable.clone(),
    };
    args.push(String::from_str("web"));
    args.push(String::from_str("--host"));
    args.push(String::from_str(DEFAULT_HOST));
    args.push(String::from_str("--port"));
    let mut port = String::new();
    push_decimal(&mut port, settings.port as u64);
    args.push(port);
    args.push(String::from_str("--no-open"));
    match &settings.profile {
        Some(p) => {
            args.push(String::from_str("--profile"));
            args.push(p.clone());
        },
        None => {},
    }
    assert(string_views(args@) =~= launch_args(*settings, *candidate));
    LaunchPlan { program, args, env, cwd: String::from_str(home) }
}

/// The spawn environment: `HOME`, `PATH`, `SHELL` (default `/bin/zsh`),
/// `LANG` (default `en_US.UTF-8`), `NODE_PATH` and `NVM_DIR` only when set
/// and not empty, and `TERM`.
pub open spec fn env_snapshot(
    home: Seq<char>,
    path: Seq<char>,
    shell: Option<Seq<char>>,
    lang: Option<Seq<char>>,
    node_path: Option<Seq<char>>,
    nvm_dir: Option<Seq<char>>,
) -> Seq<(Seq<char>, Seq<char>)> {
    let base = seq![
        ("HOME"@, home),
        ("PATH"@, path),
        ("SHELL"@, match shell {
            Some(s) => s,
            None => "/bin/zsh"@,
        }),
        ("LANG"@, match lang {
            Some(s) => s,
            None => "en_US.UTF-8"@,
        }),
    ];
    let with_node = match node_path {
        Some(v) if v.len() > 0 => base.push(("NODE_PATH"@, v)),
        _ => base,
    };
    let with_nvm = match nvm_dir {
        Some(v) if v.len() > 0 => with_node.push(("NVM_DIR"@, v)),
        _ => with_node,
    };
    with_nvm.push(("TERM"@, "xterm-256color"@))
}

fn env_var(key: &str, value: String) -> (e: EnvVar)
    ensures
        e.key@ == key@,
        e.value == value,
{
    EnvVar { key: String::from_str(key), value }
}

/// Build the spawn environment snapshot from the home directory, the
/// augmented PATH (see `augmented_path`) and the launcher's own `SHELL`,
/// `LANG`, `NODE_PATH` and `NVM_DIR` (`None` when unset).
pub fn build_env_snapshot(
    home: &str,
    path: String,
    shell: Option<String>,
    lang: Option<String>,
    node_path: Option<String>,
    nvm_dir: Option<String>,
) -> (env: Vec<EnvVar>)
    ensures
        env_views(env@) == env_snapshot(
            home@,
            path@,
            opt_view(shell),
            opt_view(lang),
            opt_view(node_path),
            opt_view(nvm_dir),
        ),
{
    let mut env: Vec<EnvVar> = Vec::new();
    env.push(env_var("HOME", String::from_str(home)));
    env.push(env_var("PATH", path));
    let shell_value = match shell {
        Some(s) => s,
        None => String::from_str("/bin/zsh"),
    };
    env.push(env_var("SHELL", shell_value));
    let lang_value = match lang {
        Some(s) => s,
        None => String::from_str("en_US.UTF-8"),
    };
    env.push(env_var("LANG", lang_value));
    let ghost base = env_views(env@);
    match node_path {
        Some(v) => {
            if !v.as_str().is_empty() {
                env.push(env_var("NODE_PATH", v));
            }
        },
        None => {},
    }
    let ghost with_node = env_views(env@);
    match nvm_dir {
        Some(v) => {
            if !v.as_str().is_empty() {
                env.push(env_var("NVM_DIR", v));
            }
        },
        None => {},
    }
    env.push(env_var("TERM", String::from_str("xterm-256color")));
    assert(env_views(env@) =~= env_snapshot(
        home@,
        path@,
        opt_view(shell),
        opt_view(lang),
        opt_view(node_path),
        opt_view(nvm_dir),
    ));
    env
}

/// The spawn environment built on the augmented PATH: `HOME` is the home
/// directory, `SHELL` and `LANG` fall back to `/bin/zsh` and `en_US.UTF-8`,
/// `TERM` is `xterm-256color`, `NODE_PATH` and `NVM_DIR` are there exactly
/// when set and not empty, and the PATH keeps every entry of the current one
/// and has `/opt/homebrew/bin`, `/usr/local/bin` and, when the home
/// directory has no `:`, `<home>/.local/bin` as entries.
pub proof fn spawn_env_has_required_entries(
    home: Seq<char>,
    existing: Seq<char>,
    dirs: Seq<Seq<char>>,
    shell: Option<Seq<char>>,
    lang: Option<Seq<char>>,
    node_path: Option<Seq<char>>,
    nvm_dir: Option<Seq<char>>,
)
    ensures
        ({
            let path = crate::locate::augmented(existing, dirs, home);
            let env = env_snapshot(home, path, shell, lang, node_path, nvm_dir);
            &&& env[0] == ("HOME"@, home)
            &&& env[1] == ("PATH"@, path)
            &&& env[2] == ("SHELL"@, match shell {
                Some(x) => x,
                None => "/bin/zsh"@,
            })
            &&& env[3] == ("LANG"@, match lang {
                Some(x) => x,
                None => "en_US.UTF-8"@,
            })
            &&& env.last() == ("TERM"@, "xterm-256color"@)
            &&& env.len() == 5 + (if node_path matches Some(v) && v.len() > 0 {
                1int
            } else {
                0int
            }) + (if nvm_dir matches Some(v) && v.len() > 0 {
                1int
            } else {
                0int
            })
            &&& forall|e: Seq<char>|
                crate::text::fields(existing, ':').contains(e) ==> crate::text::fields(path, ':').contains(e)
            &&& crate::text::fields(path, ':').contains("/opt/homebrew/bin"@)
            &&& crate::text::fields(path, ':').contains("/usr/local/bin"@)
            &&& !home.contains(':') ==> crate::text::fields(path, ':').contains(home + "/.local/bin"@)
        }),
{
    crate::locate::augmented_path_has_entries(existing, dirs, home);
}

/// The value of `key` in an environment, if it is there.
pub fn env_value(env: &Vec<EnvVar>, key: &str) -> (r: Option<String>)
    ensures
        match r {
            Some(v) => exists|i: int|
                0 <= i < env@.len() && env@[i].key@ == key@ && env@[i].value@ == v@ && forall|
                    k: int,
                | 0 <= k < i ==> env@[k].key@ != key@,
            None => forall|i: int| 0 <= i < env@.len() ==> env@[i].key@ != key@,
        },
{
    let k = chars_of(key);
    let mut i: usize = 0;
    while i < env.len()
        invariant
            i <= env.len(),
            k@ == key@,
            forall|j: int| 0 <= j < i ==> env@[j].key@ != key@,
        decreases env.len() - i,
    {
        if crate::text::str_is(env[i].key.as_str(), &k) {
            return Some(env[i].value.clone());
        }
        i = i + 1;
    }
    None
}

/// The GUI URL the webview navigates to once the readiness probe succeeds.
pub open spec fn gui_url_text(port: u16) -> Seq<char> {
    "http://127.0.0.1:"@ + decimal(port as nat)
}

/// GUI URL the webview navigates to once the readiness probe succeeds.
pub fn gui_url(port: u16) -> (r: String)
    ensures
        r@ == gui_url_text(port),
{
    let mut s = String::from_str("http://127.0.0.1:");
    push_decimal(&mut s, port as u64);
    s
}

// ---------------------------------------------------------------------------
// Choosing dsh from the setup page
// ---------------------------------------------------------------------------
/// What a look at a user-chosen path found.
#[derive(Debug, Clone, Copy, PartialEq, Eq, Structural)]
pub enum PathCheck {
    /// The path is not a regular file.
    NotFile,
    /// The path is a file without any execute permission bit.
    NotExecutable,
    /// The path is an executable file.
    Usable,
}

/// The path the user chose, trimmed; `None` when none was given or it is blank.
pub fn selected_path(path: Option<String>) -> (r: Option<String>)
    ensures
        opt_view(r) == (match opt_view(path) {
            Some(p) if trim(p).len() > 0 => Some(trim(p)),
            _ => None,
        }),
{
    match path {
        Some(p) => {
            let t = trim_chars(&chars_of(p.as_str()));
            if t.len() > 0 {
                Some(string_of(&t))
            } else {
                None
            }
        },
        None => None,
    }
}

/// The settings after the user chose a dsh path (`path`, already trimmed, and
/// what a look at it found) and/or a port, or the reason the choice is refused:
/// a path that is not an executable file, or a port below 1024.
pub open spec fn selection_result(
    settings: AppSettings,
    path: Option<Seq<char>>,
    check: PathCheck,
    port: Option<u16>,
    r: Result<AppSettings, String>,
) -> bool {
    match path {
        Some(p) if check == PathCheck::NotFile => r matches Err(e) && e@ == "路径不是可执行文件: "@ + p,
        Some(p) if check == PathCheck::NotExecutable => r matches Err(e) && e@
            == "文件没有可执行权限（chmod +x）: "@ + p,
        _ => match port {
            Some(n) if n < 1024 => r matches Err(e) && e@ == "端口需 ≥ 1024（当前 "@ + decimal(
                n as nat,
            ) + "）"@,
            _ => r matches Ok(s) && s.node_path == settings.node_path && s.profile
                == settings.profile && opt_view(s.dsh_path) == (match path {
                Some(p) => Some(p),
                None => opt_view(settings.dsh_path),
            }) && s.source@ == (match path {
                Some(_) => "user"@,
                None => settings.source@,
            }) && s.port == (match port {
                Some(n) => n,
                None => settings.port,
            }),
        },
    }
}

/// Apply the user's choice of dsh path and/or port to the settings.
pub fn apply_selection(
    settings: AppSettings,
    path: Option<String>,
    check: PathCheck,
    port: Option<u16>,
) -> (r: Result<AppSettings, String>)
    ensures
        selection_result(settings, opt_view(path), check, port, r),
{
    let mut settings = settings;
    let ghost original = settings;
    match path {
        Some(p) => {
            match check {
                PathCheck::NotFile => {
                    let mut e = String::from_str("路径不是可执行文件: ");
                    e.append(p.as_str());
                    return Err(e);
                },
                PathCheck::NotExecutable => {
                    let mut e = String::from_str("文件没有可执行权限（chmod +x）: ");
                    e.append(p.as_str());
                    return Err(e);
                },
                PathCheck::Usable => {
                    settings.dsh_path = Some(p);
                    settings.source = String::from_str("user");
                },
            }
        },
        None => {},
    }
    match port {
        Some(n) => {
            if n < 1024 {
                let mut e = String::from_str("端口需 ≥ 1024（当前 ");
                push_decimal(&mut e, n as u64);
                e.append("）");
                return Err(e);
            }
            settings.port = n;
        },
        None => {},
    }
    Ok(settings)
}

/// A choice is refused exactly when the chosen path is not an executable
/// file or the port is below 1024; a refused choice yields no settings (so
/// nothing is saved and dsh is not restarted), an accepted one yields the
/// settings to save.
pub proof fn selection_refused_exactly_when_invalid(
    settings: AppSettings,
    path: Option<Seq<char>>,
    check: PathCheck,
    port: Option<u16>,
    r: Result<AppSettings, String>,
)
    requires
        selection_result(settings, path, check, port, r),
    ensures
        r is Err <==> ((path is Some && check != PathCheck::Usable) || (port matches Some(n) && n
            < 1024)),
{
}

/// The launch command always asks dsh to listen on the configured port: the
/// argument after `--port` is a string of digits that reads back as
/// `settings.port`, whatever the port; `--host` is followed by the loopback
/// address and the flags end with `--no-open`.
pub proof fn launch_uses_configured_port(settings: AppSettings, candidate: DshCandidate)
    ensures
        ({
            let args = launch_args(settings, candidate);
            let i: int = if node_choice(settings, candidate) is Some {
                4
            } else {
                3
            };
            &&& args[i - 2] == "--host"@
            &&& args[i - 1] == "127.0.0.1"@
            &&& args[i] == "--port"@
            &&& crate::text::all_digits(args[i + 1])
            &&& crate::text::parse_unsigned(args[i + 1], u16::MAX as nat) == Some(settings.port as nat)
            &&& args[i + 2] == "--no-open"@
        }),
{
    crate::text::decimal_reads_back(settings.port as nat);
    crate::text::digits_parse(decimal(settings.port as nat), u16::MAX as nat);
}

} // verus!
