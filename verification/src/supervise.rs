//! The launcher's shared state and the decisions of one supervised dsh
//! lifecycle: connect to a healthy instance already on the port or spawn a
//! child, wait for readiness, then watch it until it is lost, exits, or the
//! run is superseded by a newer one.
use crate::candidate::{source_label, DshCandidate, LocateOutcome};
use crate::launch::{gui_url, gui_url_text};
use crate::text::{chars_of, decimal, push_chars, push_decimal};
use vstd::prelude::*;

verus! {

broadcast use vstd::string::group_string_axioms;

/// Status kinds shown by the launcher page.
pub const ST_STARTING: &'static str = "starting";

pub const ST_READY: &'static str = "ready";

pub const ST_MISSING_DSH: &'static str = "missing-dsh";

pub const ST_ERROR: &'static str = "error";

/// How long the launcher waits for readiness, in seconds.
pub const READY_TIMEOUT_SECS: u64 = 30;

/// A discovered dsh candidate, as the setup page lists it.
#[derive(Debug, Clone)]
pub struct CandidateView {
    pub executable: String,
    pub version: String,
    pub source: String,
}

/// The status the launcher page shows.
#[derive(Debug)]
pub struct StatusPayload {
    pub state: String,
    pub message: Option<String>,
    pub port: u16,
    pub url: String,
    pub candidates: Vec<CandidateView>,
}

/// The launcher's shared state.
#[derive(Debug)]
pub struct LauncherState {
    /// What the status page shows.
    pub status: StatusPayload,
    /// Process group of the supervised dsh child, while there is one.
    pub pgid: Option<i32>,
    /// Set while the app tears down, so supervisors stop.
    pub stopping: bool,
    /// Bumped whenever a (re)start is requested; older runs then stop quietly.
    pub generation: u64,
    /// Whether the app-exit teardown has run.
    pub torn_down: bool,
    /// Where the settings file lives.
    pub settings_path: String,
    /// Origin of the bundled launcher page, to navigate back to on problems.
    pub launcher_origin: String,
}

pub open spec fn opt_text(o: Option<String>) -> Option<Seq<char>> {
    match o {
        Some(s) => Some(s@),
        None => None,
    }
}

/// The status shown before anything is known: starting, on `port`.
pub fn initial_status(port: u16) -> (r: StatusPayload)
    ensures
        r.state@ == ST_STARTING@,
        r.message is None,
        r.port == port,
        r.url@ == gui_url_text(port),
        r.candidates@.len() == 0,
{
    StatusPayload {
        state: String::from_str(ST_STARTING),
        message: None,
        port,
        url: gui_url(port),
        candidates: Vec::new(),
    }
}

/// A fresh state for a launcher whose settings live at `settings_path`.
pub fn new_state(settings_path: String, port: u16) -> (r: LauncherState)
    ensures
        r.status.state@ == ST_STARTING@,
        r.status.port == port,
        r.pgid is None,
        !r.stopping,
        r.generation == 0,
        !r.torn_down,
        r.settings_path@ == settings_path@,
        r.launcher_origin@.len() == 0,
{
    LauncherState {
        status: initial_status(port),
        pgid: None,
        stopping: false,
        generation: 0,
        torn_down: false,
        settings_path,
        launcher_origin: String::new(),
    }
}

impl LauncherState {
    /// Set the status kind and message.
    pub fn set_status(&mut self, kind: &str, message: Option<String>)
        ensures
            final(self).status.state@ == kind@,
            opt_text(final(self).status.message) == opt_text(message),
            final(self).status.port == old(self).status.port,
            final(self).status.url == old(self).status.url,
            final(self).status.candidates == old(self).status.candidates,
            final(self).pgid == old(self).pgid,
            final(self).stopping == old(self).stopping,
            final(self).generation == old(self).generation,
            final(self).torn_down == old(self).torn_down,
            final(self).settings_path == old(self).settings_path,
            final(self).launcher_origin == old(self).launcher_origin,
    {
        self.status.state = String::from_str(kind);
        self.status.message = message;
    }

    /// Whether the run started at `generation` has been superseded by a newer
    /// (re)start request, or the app is tearing down.
    pub fn superseded(&self, generation: u64) -> (r: bool)
        ensures
            r == (self.generation != generation || self.stopping),
    {
        self.generation != generation || self.stopping
    }

    /// Abort the running supervision before a fresh run: bump the generation
    /// (wrapping) so the old supervisor stops quietly, and hand back the child's
    /// process group, if any, for the caller to terminate.
    pub fn stop_current_run(&mut self) -> (r: Option<i32>)
        ensures
            final(self).generation == old(self).generation.wrapping_add(1),
            final(self).generation != old(self).generation,
            r == old(self).pgid,
            final(self).pgid is None,
            !final(self).stopping,
            final(self).torn_down == old(self).torn_down,
            final(self).status == old(self).status,
            final(self).settings_path == old(self).settings_path,
            final(self).launcher_origin == old(self).launcher_origin,
    {
        self.generation = self.generation.wrapping_add(1);
        let pgid = self.pgid.take();
        self.stopping = false;
        pgid
    }

    /// App-exit teardown: the first call stops supervisors and hands back the
    /// child's process group for the caller to terminate; later calls do
    /// nothing (teardown runs once, whichever exit hook fires first).
    pub fn teardown(&mut self) -> (r: Option<i32>)
        ensures
            old(self).torn_down ==> r is None && *final(self) == *old(self),
            !old(self).torn_down ==> {
                &&& r == old(self).pgid
                &&& final(self).torn_down
                &&& final(self).stopping
                &&& final(self).pgid is None
                &&& final(self).generation == old(self).generation
                &&& final(self).status == old(self).status
                &&& final(self).settings_path == old(self).settings_path
                &&& final(self).launcher_origin == old(self).launcher_origin
            },
    {
        if self.torn_down {
            return None;
        }
        self.torn_down = true;
        self.stopping = true;
        self.pgid.take()
    }

    /// Whether the launcher owns the dsh it shows (a supervised child runs).
    pub fn owns_dsh(&self) -> (r: bool)
        ensures
            r == self.pgid is Some,
    {
        self.pgid.is_some()
    }
}

// ---------------------------------------------------------------------------
// Choosing what to run
// ---------------------------------------------------------------------------
/// The setup page's view of a candidate.
pub fn candidate_view(c: &DshCandidate) -> (r: CandidateView)
    ensures
        r.executable@ == c.executable@,
        r.version@ == c.version@,
        r.source@ == source_label(c.source),
{
    CandidateView {
        executable: c.executable.clone(),
        version: c.version.clone(),
        source: String::from_str(c.source.as_str()),
    }
}

/// The setup page's view of every candidate of a location pass.
pub fn candidate_views(outcome: &LocateOutcome) -> (r: Vec<CandidateView>)
    ensures
        r@.len() == outcome.candidates@.len(),
        forall|i: int|
            0 <= i < r@.len() ==> (#[trigger] r@[i]).executable@ == outcome.candidates@[i].executable@
                && r@[i].version@ == outcome.candidates@[i].version@ && r@[i].source@
                == source_label(outcome.candidates@[i].source),
{
    let mut out: Vec<CandidateView> = Vec::new();
    let mut i: usize = 0;
    while i < outcome.candidates.len()
        invariant
            i <= outcome.candidates@.len(),
            out@.len() == i,
            forall|k: int|
                0 <= k < i ==> (#[trigger] out@[k]).executable@ == outcome.candidates@[k].executable@
                    && out@[k].version@ == outcome.candidates@[k].version@ && out@[k].source@
                    == source_label(outcome.candidates@[k].source),
        decreases outcome.candidates@.len() - i,
    {
        out.push(candidate_view(&outcome.candidates[i]));
        i = i + 1;
    }
    out
}

/// `s` without trailing `/` characters.
pub open spec fn trim_slashes_end(s: Seq<char>) -> Seq<char>
    decreases s.len(),
{
    if s.len() > 0 && s.last() == '/' {
        trim_slashes_end(s.drop_last())
    } else {
        s
    }
}

/// Where the launcher page lives: the origin already known, else the page's
/// current URL without trailing `/`, else `tauri://localhost`.
pub open spec fn origin_of(known: Seq<char>, page_url: Option<Seq<char>>) -> Seq<char> {
    if known.len() > 0 {
        known
    } else {
        let u = match page_url {
            Some(u) => trim_slashes_end(u),
            None => Seq::empty(),
        };
        if u.len() > 0 {
            u
        } else {
            "tauri://localhost"@
        }
    }
}

/// The launcher origin to remember, given the one already known and the
/// URL of the page currently shown (when it can be read).
pub fn launcher_origin(known: &str, page_url: Option<String>) -> (r: String)
    ensures
        r@ == origin_of(known@, opt_text(page_url)),
{
    let k = chars_of(known);
    if k.len() > 0 {
        return String::from_str(known);
    }
    let mut u: Vec<char> = match &page_url {
        Some(p) => chars_of(p.as_str()),
        None => Vec::new(),
    };
    proof {
        assert(u@ == match opt_text(page_url) {
            Some(p) => p,
            None => Seq::<char>::empty(),
        });
    }
    let ghost start = u@;
    while u.len() > 0 && u[u.len() - 1] == '/'
        invariant
            trim_slashes_end(u@) == trim_slashes_end(start),
        decreases u.len(),
    {
        u.pop();
    }
    if u.len() > 0 {
        crate::text::string_of(&u)
    } else {
        String::from_str("tauri://localhost")
    }
}

/// The message shown when no dsh was found.
pub open spec fn missing_dsh_text(settings_path: Seq<char>) -> Seq<char> {
    "未找到 dsh。请在下方指定 dsh 路径（或确认 dsh 已在 PATH 中），保存后自动重启。设置文件位于："@
        + settings_path
}

pub fn missing_dsh_message(settings_path: &str) -> (r: String)
    ensures
        r@ == missing_dsh_text(settings_path@),
{
    let mut s = String::from_str(
        "未找到 dsh。请在下方指定 dsh 路径（或确认 dsh 已在 PATH 中），保存后自动重启。设置文件位于：",
    );
    push_chars(&mut s, &chars_of(settings_path));
    s
}

/// Take the outcome of a location pass into the shared state: the setup page
/// lists every candidate; with no candidate the status is "missing-dsh" with
/// `missing_dsh_message` and there is nothing to launch, otherwise the status
/// is "starting" and the primary candidate is the one to launch.
pub fn record_outcome(st: &mut LauncherState, outcome: &LocateOutcome, settings_path: &str) -> (r:
    Option<DshCandidate>)
    ensures
        r == outcome.primary,
        final(st).status.candidates@.len() == outcome.candidates@.len(),
        forall|i: int|
            0 <= i < outcome.candidates@.len() ==> (#[trigger] final(st).status.candidates@[i]).executable@
                == outcome.candidates@[i].executable@ && final(st).status.candidates@[i].version@
                == outcome.candidates@[i].version@ && final(st).status.candidates@[i].source@
                == source_label(outcome.candidates@[i].source),
        match outcome.primary {
            None => shows(*final(st), ST_MISSING_DSH@, Some(missing_dsh_text(settings_path@))),
            Some(_) => shows(*final(st), ST_STARTING@, None),
        },
        final(st).pgid == old(st).pgid,
        final(st).generation == old(st).generation,
        final(st).stopping == old(st).stopping,
        final(st).torn_down == old(st).torn_down,
        final(st).settings_path == old(st).settings_path,
        final(st).launcher_origin == old(st).launcher_origin,
        final(st).status.port == old(st).status.port,
        final(st).status.url == old(st).status.url,
{
    st.set_status(ST_STARTING, None);
    st.status.candidates = candidate_views(outcome);
    match &outcome.primary {
        Some(c) => Some(c.clone()),
        None => {
            st.set_status(ST_MISSING_DSH, Some(missing_dsh_message(settings_path)));
            None
        },
    }
}

// ---------------------------------------------------------------------------
// One supervised lifecycle
// ---------------------------------------------------------------------------
/// How one supervised lifecycle ended.
#[derive(Debug, PartialEq, Eq)]
pub enum Lifecycle {
    /// Healthy until an external stop or a newer run took over.
    Aborted,
    /// Readiness was never reached (spawn error, timeout, port clash); the
    /// error page has been shown. Never restarted automatically.
    StartFailed,
    /// The child exited, successfully or not.
    Exited { success: bool },
    /// A previously healthy dsh (ours or not) stopped answering.
    ConnectionLost(String),
}

/// Where a lifecycle stands.
#[derive(Debug, Clone, Copy, PartialEq, Eq, Structural)]
pub enum Phase {
    /// The first signature test is under way.
    Probing,
    /// Watching an instance the launcher did not start.
    Existing,
    /// A child is being spawned.
    Spawning,
    /// Waiting for the child's readiness.
    Starting,
    /// Watching the child.
    Running,
    /// The lifecycle is over.
    Done,
}

/// A poll of the child.
#[derive(Debug, PartialEq, Eq)]
pub enum ChildState {
    Running,
    Exited { success: bool },
    PollFailed,
}

/// What happened since the last action.
#[derive(Debug)]
pub enum SuperviseEvent {
    /// The signature test answered.
    Signature(bool),
    /// The webview was sent to dsh.
    Navigated,
    /// A wait interval passed.
    Slept,
    /// Spawning gave the child's process group, or the error text.
    Spawned(Result<i32, String>),
    /// Whether readiness came in time; when not, whether the port answered
    /// `GET /` at all.
    Readiness { ready: bool, port_answers: bool },
    /// The child was polled.
    Child(ChildState),
}

/// What the supervisor asks for next.
#[derive(Debug)]
pub enum SuperviseAction {
    /// Run the signature test on the port.
    CheckSignature,
    /// Navigate the webview to dsh (the status is ready).
    NavigateToDsh,
    /// Wait the watch interval (existing instance) or the poll interval.
    Sleep,
    /// Build the launch plan and spawn dsh.
    Spawn,
    /// Wait for readiness (and, when it does not come, probe the port).
    WaitReady,
    /// Poll the child.
    PollChild,
    /// The lifecycle is over: kill the child first when asked, and show the
    /// launcher page with the status when asked.
    Finish { lifecycle: Lifecycle, kill_child: bool, show_page: bool },
}

/// One supervised lifecycle of dsh on `port`, started at `generation`.
pub struct Supervisor {
    pub generation: u64,
    pub port: u16,
    pub phase: Phase,
}

/// Whether `ev` is an answer to what a supervisor in `phase` asked for.
pub open spec fn answers(phase: Phase, ev: SuperviseEvent) -> bool {
    match phase {
        Phase::Probing => ev is Signature,
        Phase::Existing => ev is Navigated || ev is Slept || ev is Signature,
        Phase::Spawning => ev is Spawned,
        Phase::Starting => ev is Readiness,
        Phase::Running => ev is Navigated || ev is Slept || ev is Child,
        Phase::Done => false,
    }
}

/// The message for a start that did not become ready.
pub open spec fn not_ready_text(port: u16, port_answers: bool) -> Seq<char> {
    if port_answers {
        "端口 "@ + decimal(port as nat) + " 已被其他程序占用；请在下方设置中修改 dsh 端口。"@
    } else {
        "dsh 在 "@ + decimal(READY_TIMEOUT_SECS as nat)
            + " 秒内未就绪。请确认 dsh 版本支持 --port，且 web profile 可用。"@
    }
}

pub fn not_ready_message(port: u16, port_answers: bool) -> (r: String)
    ensures
        r@ == not_ready_text(port, port_answers),
{
    if port_answers {
        let mut s = String::from_str("端口 ");
        push_decimal(&mut s, port as u64);
        push_chars(&mut s, &chars_of(" 已被其他程序占用；请在下方设置中修改 dsh 端口。"));
        s
    } else {
        let mut s = String::from_str("dsh 在 ");
        push_decimal(&mut s, READY_TIMEOUT_SECS);
        push_chars(&mut s, &chars_of(" 秒内未就绪。请确认 dsh 版本支持 --port，且 web profile 可用。"));
        s
    }
}

/// The state fields a step leaves alone.
pub open spec fn same_bookkeeping(a: LauncherState, b: LauncherState) -> bool {
    &&& a.generation == b.generation
    &&& a.stopping == b.stopping
    &&& a.torn_down == b.torn_down
    &&& a.settings_path == b.settings_path
    &&& a.launcher_origin == b.launcher_origin
    &&& a.status.port == b.status.port
    &&& a.status.url == b.status.url
    &&& a.status.candidates == b.status.candidates
}

/// The status is `kind` with `message`.
pub open spec fn shows(st: LauncherState, kind: Seq<char>, message: Option<Seq<char>>) -> bool {
    st.status.state@ == kind && opt_text(st.status.message) == message
}

/// One step of a supervised lifecycle: the supervisor `s` with shared state
/// `st` receives `ev`, becomes `t` with state `st2`, and asks for `a`.
pub open spec fn supervise_step(
    s: Supervisor,
    st: LauncherState,
    ev: SuperviseEvent,
    t: Supervisor,
    st2: LauncherState,
    a: SuperviseAction,
) -> bool {
    let superseded = st.generation != s.generation || st.stopping;
    let url = gui_url_text(s.port);
    match (s.phase, ev) {
        // A healthy instance already serves the port: connect to it.
        (Phase::Probing, SuperviseEvent::Signature(true)) => t.phase
            == Phase::Existing && a is NavigateToDsh && shows(st2, ST_READY@, Some(url))
            && st2.pgid == st.pgid,
        // Nothing serves it: spawn a child.
        (Phase::Probing, SuperviseEvent::Signature(false)) => t.phase
            == Phase::Spawning && a is Spawn && st2 == st,
        // Watching an instance not ours: stop when superseded, else
        // wait and test again; it is lost when the test fails.
        (Phase::Existing, SuperviseEvent::Signature(false)) => t.phase
            == Phase::Done && (a matches SuperviseAction::Finish {
            lifecycle: Lifecycle::ConnectionLost(m),
            kill_child: false,
            show_page: false,
        } && m@ == "已连接的 dsh 实例停止响应"@) && st2 == st,
        (Phase::Existing, SuperviseEvent::Slept) => t.phase == Phase::Existing
            && a is CheckSignature && st2 == st,
        (Phase::Existing, _) => st2 == st && if superseded {
            t.phase == Phase::Done && a == (SuperviseAction::Finish {
                lifecycle: Lifecycle::Aborted,
                kill_child: false,
                show_page: false,
            })
        } else {
            t.phase == Phase::Existing && a is Sleep
        },
        // Spawning failed: show the error.
        (Phase::Spawning, SuperviseEvent::Spawned(Err(e))) => t.phase
            == Phase::Done && a == (SuperviseAction::Finish {
            lifecycle: Lifecycle::StartFailed,
            kill_child: false,
            show_page: true,
        }) && shows(st2, ST_ERROR@, Some("无法启动 dsh: "@ + e@))
            && st2.pgid == st.pgid,
        // A child runs: remember its group and wait for readiness.
        (Phase::Spawning, SuperviseEvent::Spawned(Ok(pgid))) => t.phase
            == Phase::Starting && a is WaitReady && st2.pgid == Some(pgid)
            && shows(st2, ST_STARTING@, None),
        // Not ready in time: kill the child and show why.
        (Phase::Starting, SuperviseEvent::Readiness { ready: false, port_answers }) =>
            t.phase == Phase::Done && a == (SuperviseAction::Finish {
            lifecycle: Lifecycle::StartFailed,
            kill_child: true,
            show_page: true,
        }) && st2.pgid is None && shows(
            st2,
            ST_ERROR@,
            Some(not_ready_text(s.port, port_answers)),
        ),
        // Ready: show dsh.
        (Phase::Starting, SuperviseEvent::Readiness { ready: true, .. }) =>
            t.phase == Phase::Running && a is NavigateToDsh && shows(
            st2,
            ST_READY@,
            Some(url),
        ) && st2.pgid == st.pgid,
        // Watching the child.
        (Phase::Running, SuperviseEvent::Child(ChildState::Running)) =>
            t.phase == Phase::Running && a is Sleep && st2 == st,
        (Phase::Running, SuperviseEvent::Child(ChildState::Exited { success })) =>
            t.phase == Phase::Done && a == (SuperviseAction::Finish {
            lifecycle: Lifecycle::Exited { success },
            kill_child: false,
            show_page: false,
        }) && st2.pgid is None && st2.status == st.status,
        (Phase::Running, SuperviseEvent::Child(ChildState::PollFailed)) =>
            t.phase == Phase::Done && a == (SuperviseAction::Finish {
            lifecycle: Lifecycle::Aborted,
            kill_child: false,
            show_page: false,
        }) && st2 == st,
        (Phase::Running, _) => st2 == st && if superseded {
            t.phase == Phase::Done && a == (SuperviseAction::Finish {
                lifecycle: Lifecycle::Aborted,
                kill_child: true,
                show_page: false,
            })
        } else {
            t.phase == Phase::Running && a is PollChild
        },
        _ => true,
    }
}

impl Supervisor {
    /// Begin a lifecycle for the current generation: first, test whether a
    /// dsh instance already serves the port.
    pub fn begin(st: &LauncherState, port: u16) -> (r: (Supervisor, SuperviseAction))
        ensures
            r.0.generation == st.generation,
            r.0.port == port,
            r.0.phase == Phase::Probing,
            r.1 is CheckSignature,
    {
        (Supervisor { generation: st.generation, port, phase: Phase::Probing }, SuperviseAction::CheckSignature)
    }

    /// The decision after `ev`, updating the shared state.
    pub fn step(&mut self, st: &mut LauncherState, ev: SuperviseEvent) -> (a: SuperviseAction)
        requires
            answers(old(self).phase, ev),
        ensures
            final(self).generation == old(self).generation,
            final(self).port == old(self).port,
            same_bookkeeping(*old(st), *final(st)),
            supervise_step(*old(self), *old(st), ev, *final(self), *final(st), a),
    {
        let superseded = st.superseded(self.generation);
        match self.phase {
            Phase::Probing => match ev {
                SuperviseEvent::Signature(true) => {
                    st.set_status(ST_READY, Some(gui_url(self.port)));
                    self.phase = Phase::Existing;
                    SuperviseAction::NavigateToDsh
                },
                _ => {
                    self.phase = Phase::Spawning;
                    SuperviseAction::Spawn
                },
            },
            Phase::Existing => match ev {
                SuperviseEvent::Signature(false) => {
                    self.phase = Phase::Done;
                    SuperviseAction::Finish {
                        lifecycle: Lifecycle::ConnectionLost(
                            String::from_str("已连接的 dsh 实例停止响应"),
                        ),
                        kill_child: false,
                        show_page: false,
                    }
                },
                SuperviseEvent::Slept => SuperviseAction::CheckSignature,
                _ => {
                    if superseded {
                        self.phase = Phase::Done;
                        SuperviseAction::Finish {
                            lifecycle: Lifecycle::Aborted,
                            kill_child: false,
                            show_page: false,
                        }
                    } else {
                        SuperviseAction::Sleep
                    }
                },
            },
            Phase::Spawning => match ev {
                SuperviseEvent::Spawned(Ok(pgid)) => {
                    st.pgid = Some(pgid);
                    st.set_status(ST_STARTING, None);
                    self.phase = Phase::Starting;
                    SuperviseAction::WaitReady
                },
                SuperviseEvent::Spawned(Err(e)) => {
                    let mut m = String::from_str("无法启动 dsh: ");
                    push_chars(&mut m, &chars_of(e.as_str()));
                    st.set_status(ST_ERROR, Some(m));
                    self.phase = Phase::Done;
                    SuperviseAction::Finish {
                        lifecycle: Lifecycle::StartFailed,
                        kill_child: false,
                        show_page: true,
                    }
                },
                _ => SuperviseAction::Spawn,
            },
            Phase::Starting => match ev {
                SuperviseEvent::Readiness { ready: true, .. } => {
                    st.set_status(ST_READY, Some(gui_url(self.port)));
                    self.phase = Phase::Running;
                    SuperviseAction::NavigateToDsh
                },
                SuperviseEvent::Readiness { ready: false, port_answers } => {
                    let m = not_ready_message(self.port, port_answers);
                    st.pgid = None;
                    st.set_status(ST_ERROR, Some(m));
                    self.phase = Phase::Done;
                    SuperviseAction::Finish {
                        lifecycle: Lifecycle::StartFailed,
                        kill_child: true,
                        show_page: true,
                    }
                },
                _ => SuperviseAction::WaitReady,
            },
            Phase::Running => match ev {
                SuperviseEvent::Child(ChildState::Running) => SuperviseAction::Sleep,
                SuperviseEvent::Child(ChildState::Exited { success }) => {
                    st.pgid = None;
                    self.phase = Phase::Done;
                    SuperviseAction::Finish {
                        lifecycle: Lifecycle::Exited { success },
                        kill_child: false,
                        show_page: false,
                    }
                },
                SuperviseEvent::Child(ChildState::PollFailed) => {
                    self.phase = Phase::Done;
                    SuperviseAction::Finish {
                        lifecycle: Lifecycle::Aborted,
                        kill_child: false,
                        show_page: false,
                    }
                },
                _ => {
                    if superseded {
                        self.phase = Phase::Done;
                        SuperviseAction::Finish {
                            lifecycle: Lifecycle::Aborted,
                            kill_child: true,
                            show_page: false,
                        }
                    } else {
                        SuperviseAction::PollChild
                    }
                },
            },
            Phase::Done => SuperviseAction::Finish {
                lifecycle: Lifecycle::Aborted,
                kill_child: false,
                show_page: false,
            },
        }
    }
}

// ---------------------------------------------------------------------------
// After a lifecycle
// ---------------------------------------------------------------------------
/// What the launcher does once a lifecycle ended.
#[derive(Debug, PartialEq, Eq)]
pub enum RunEnd {
    /// Nothing more: the run was aborted or its failure is already shown.
    Stay,
    /// dsh exited cleanly (typically via its web UI's shutdown): keep the app
    /// open and offer a restart with this message.
    OfferRestart(String),
    /// dsh was killed, crashed or stopped answering: log this and exit the app.
    ExitApp(String),
}

/// The message shown after dsh exited cleanly.
pub open spec fn clean_exit_text() -> Seq<char> {
    "dsh 已正常退出（可能通过 Web 界面关机）。点击「重新启动」可再次拉起。"@
}

/// What follows a lifecycle.
pub fn after_lifecycle(l: Lifecycle) -> (r: RunEnd)
    ensures
        match l {
            Lifecycle::Aborted => r == RunEnd::Stay,
            Lifecycle::StartFailed => r == RunEnd::Stay,
            Lifecycle::Exited { success: true } => r matches RunEnd::OfferRestart(m)
                && m@ == clean_exit_text(),
            Lifecycle::Exited { success: false } => r matches RunEnd::ExitApp(m)
                && m@ == "dsh 进程异常退出；退出桌面应用。"@,
            Lifecycle::ConnectionLost(reason) => r matches RunEnd::ExitApp(m)
                && m@ == reason@ + "；退出桌面应用。"@,
        },
{
    match l {
        Lifecycle::Aborted => RunEnd::Stay,
        Lifecycle::StartFailed => RunEnd::Stay,
        Lifecycle::Exited { success } => {
            if success {
                RunEnd::OfferRestart(
                    String::from_str(
                        "dsh 已正常退出（可能通过 Web 界面关机）。点击「重新启动」可再次拉起。",
                    ),
                )
            } else {
                RunEnd::ExitApp(String::from_str("dsh 进程异常退出；退出桌面应用。"))
            }
        },
        Lifecycle::ConnectionLost(reason) => {
            let mut m = reason;
            push_chars(&mut m, &chars_of("；退出桌面应用。"));
            RunEnd::ExitApp(m)
        },
    }
}

// ---------------------------------------------------------------------------
// Restarting from the launcher page
// ---------------------------------------------------------------------------
/// Where a restart stands.
#[derive(Debug, Clone, Copy, PartialEq, Eq, Structural)]
pub enum RestartPhase {
    /// Nothing done yet.
    Begin,
    /// The port's owner was sent SIGTERM; waiting (up to 10 s) for the port
    /// to be released.
    AwaitTerm,
    /// The wait is over; one more look decides on SIGKILL.
    Recheck,
    /// SIGKILL was sent; waiting (up to 5 s) for the port to be released.
    AwaitKill,
    /// The restart is handed to a fresh run.
    Done,
}

/// What happened since the last restart action.
#[derive(Debug)]
pub enum RestartEvent {
    /// The restart was asked for; whether the launcher owns the running dsh.
    Started { owned: bool },
    /// The processes on the port that were sent SIGTERM.
    Killed(Vec<i32>),
    /// Whether dsh still serves the port, and whether the current wait is over.
    Probed { serving: bool, expired: bool },
    /// A short wait passed.
    Slept,
    /// SIGKILL was sent.
    ForceKilled,
}

/// What a restart asks for next.
#[derive(Debug, PartialEq, Eq)]
pub enum RestartAction {
    /// Send SIGTERM to whatever owns the port, and start a 10 s wait.
    KillPortOwner,
    /// Run the signature test on the port.
    Probe,
    /// Wait a moment.
    Sleep,
    /// Send SIGKILL to these processes, and start a 5 s wait.
    ForceKill(Vec<i32>),
    /// Stop the current run and start a fresh one.
    Relaunch,
}

/// A restart of dsh from the launcher page. When the launcher owns the
/// running dsh, stopping the current run suffices; otherwise whatever serves
/// the port is stopped first (SIGTERM, then SIGKILL when it lingers), so the
/// fresh run spawns and owns its own child.
pub struct Restarter {
    pub phase: RestartPhase,
    pub pids: Vec<i32>,
}

/// Whether `ev` answers what a restart in `phase` asked for.
pub open spec fn restart_answers(phase: RestartPhase, ev: RestartEvent) -> bool {
    match phase {
        RestartPhase::Begin => ev is Started,
        RestartPhase::AwaitTerm => ev is Killed || ev is Probed || ev is Slept,
        RestartPhase::Recheck => ev is Probed,
        RestartPhase::AwaitKill => ev is ForceKilled || ev is Probed || ev is Slept,
        RestartPhase::Done => false,
    }
}

impl Restarter {
    pub fn new() -> (r: Restarter)
        ensures
            r.phase == RestartPhase::Begin,
            r.pids@.len() == 0,
    {
        Restarter { phase: RestartPhase::Begin, pids: Vec::new() }
    }

    /// The decision after `ev`.
    pub fn step(&mut self, ev: RestartEvent) -> (a: RestartAction)
        requires
            restart_answers(old(self).phase, ev),
        ensures
            match (old(self).phase, ev) {
                (RestartPhase::Begin, RestartEvent::Started { owned: true }) => a
                    == RestartAction::Relaunch && final(self).phase == RestartPhase::Done,
                (RestartPhase::Begin, RestartEvent::Started { owned: false }) => a
                    == RestartAction::KillPortOwner && final(self).phase == RestartPhase::AwaitTerm,
                (RestartPhase::AwaitTerm, RestartEvent::Killed(pids)) => a == RestartAction::Probe
                    && final(self).phase == RestartPhase::AwaitTerm && final(self).pids == pids,
                (RestartPhase::AwaitTerm, RestartEvent::Probed { serving, expired }) => if serving
                    && !expired {
                    a == RestartAction::Sleep && final(self).phase == RestartPhase::AwaitTerm
                } else {
                    a == RestartAction::Probe && final(self).phase == RestartPhase::Recheck
                },
                (RestartPhase::Recheck, RestartEvent::Probed { serving, .. }) => if serving {
                    (a matches RestartAction::ForceKill(p) && p@ == old(self).pids@)
                        && final(self).phase == RestartPhase::AwaitKill
                } else {
                    a == RestartAction::Relaunch && final(self).phase == RestartPhase::Done
                },
                (RestartPhase::AwaitKill, RestartEvent::ForceKilled) => a == RestartAction::Probe
                    && final(self).phase == RestartPhase::AwaitKill,
                (RestartPhase::AwaitKill, RestartEvent::Probed { serving, expired }) => if serving
                    && !expired {
                    a == RestartAction::Sleep && final(self).phase == RestartPhase::AwaitKill
                } else {
                    a == RestartAction::Relaunch && final(self).phase == RestartPhase::Done
                },
                (_, RestartEvent::Slept) => a == RestartAction::Probe && final(self).phase
                    == old(self).phase,
                _ => true,
            },
            old(self).phase != RestartPhase::AwaitTerm || !(ev is Killed) ==> final(self).pids
                == old(self).pids,
    {
        match ev {
            RestartEvent::Started { owned } => {
                if owned {
                    self.phase = RestartPhase::Done;
                    RestartAction::Relaunch
                } else {
                    self.phase = RestartPhase::AwaitTerm;
                    RestartAction::KillPortOwner
                }
            },
            RestartEvent::Killed(pids) => {
                self.pids = pids;
                RestartAction::Probe
            },
            RestartEvent::Slept => RestartAction::Probe,
            RestartEvent::ForceKilled => RestartAction::Probe,
            RestartEvent::Probed { serving, expired } => match self.phase {
                RestartPhase::Recheck => {
                    if serving {
                        self.phase = RestartPhase::AwaitKill;
                        RestartAction::ForceKill(self.pids.clone())
                    } else {
                        self.phase = RestartPhase::Done;
                        RestartAction::Relaunch
                    }
                },
                RestartPhase::AwaitTerm => {
                    if serving && !expired {
                        RestartAction::Sleep
                    } else {
                        self.phase = RestartPhase::Recheck;
                        RestartAction::Probe
                    }
                },
                _ => {
                    if serving && !expired {
                        RestartAction::Sleep
                    } else {
                        self.phase = RestartPhase::Done;
                        RestartAction::Relaunch
                    }
                },
            },
        }
    }
}

// ---------------------------------------------------------------------------
// Waiting for readiness
// ---------------------------------------------------------------------------
/// The readiness deadline, in milliseconds since the wait began.
pub const READY_TIMEOUT_MS: u64 = 30000;

/// The pause between two readiness probes, in milliseconds.
pub const READY_POLL_MS: u64 = 250;

/// What the readiness wait does after a probe.
#[derive(Debug, Clone, Copy, PartialEq, Eq, Structural)]
pub enum ReadyAction {
    /// The wait is over: whether dsh became ready.
    Done(bool),
    /// Sleep `READY_POLL_MS`, then probe again.
    SleepThenProbe,
}

/// One round of the readiness wait, given whether the dsh signature answered
/// and how long the wait has lasted: ready as soon as the signature answers,
/// given up once the deadline has passed, otherwise poll again.
pub fn ready_step(signature_ok: bool, elapsed_ms: u64) -> (a: ReadyAction)
    ensures
        a == (if signature_ok {
            ReadyAction::Done(true)
        } else if elapsed_ms >= READY_TIMEOUT_MS {
            ReadyAction::Done(false)
        } else {
            ReadyAction::SleepThenProbe
        }),
{
    if signature_ok {
        ReadyAction::Done(true)
    } else if elapsed_ms >= READY_TIMEOUT_MS {
        ReadyAction::Done(false)
    } else {
        ReadyAction::SleepThenProbe
    }
}

// ---------------------------------------------------------------------------
// Tearing down a process group
// ---------------------------------------------------------------------------
/// How long the group gets after SIGTERM before SIGKILL, in milliseconds.
pub const KILL_GRACE_MS: u64 = 5000;

/// The pause between two checks during the grace period, in milliseconds.
pub const GRACE_POLL_MS: u64 = 200;

/// How long to wait for the group to vanish after SIGKILL, in milliseconds.
pub const KILL_WAIT_MS: u64 = 2000;

/// The pause between two checks after SIGKILL, in milliseconds.
pub const KILL_POLL_MS: u64 = 100;

/// Where a teardown stands.
#[derive(Debug, Clone, Copy, PartialEq, Eq, Structural)]
pub enum TerminatePhase {
    /// SIGTERM was sent; waiting out the grace period.
    Grace,
    /// SIGKILL was sent; waiting for the group to vanish.
    Killed,
    /// The teardown is over.
    Over,
}

/// What the caller does next in a teardown.
#[derive(Debug, Clone, Copy, PartialEq, Eq, Structural)]
pub enum TerminateAction {
    /// Send SIGTERM to the process group and start the grace clock.
    SendTerm,
    /// Sleep this many milliseconds, then check the group again.
    Sleep(u64),
    /// Send SIGKILL to the process group and restart the clock.
    SendKill,
    /// The teardown is over: whether the group is confirmed gone.
    Done(bool),
}

/// The teardown of a process group: SIGTERM, a grace period during which the
/// group is polled, then SIGKILL and a last short wait.
#[derive(Debug)]
pub struct Terminator {
    pub phase: TerminatePhase,
}

/// One step of a teardown in `phase`, given whether a process of the group
/// is still alive (`pgrep -g`) and the milliseconds since the last signal:
/// the phase it moves to and what to do.
pub open spec fn terminate_step(phase: TerminatePhase, group_alive: bool, elapsed_ms: u64) -> (
    TerminatePhase,
    TerminateAction,
) {
    match phase {
        TerminatePhase::Grace => if elapsed_ms >= KILL_GRACE_MS {
            (TerminatePhase::Killed, TerminateAction::SendKill)
        } else if !group_alive {
            (TerminatePhase::Over, TerminateAction::Done(true))
        } else {
            (TerminatePhase::Grace, TerminateAction::Sleep(GRACE_POLL_MS))
        },
        TerminatePhase::Killed => if group_alive && elapsed_ms < KILL_WAIT_MS {
            (TerminatePhase::Killed, TerminateAction::Sleep(KILL_POLL_MS))
        } else {
            (TerminatePhase::Over, TerminateAction::Done(!group_alive))
        },
        TerminatePhase::Over => (TerminatePhase::Over, TerminateAction::Done(!group_alive)),
    }
}

impl Terminator {
    /// Start tearing a process group down: the first thing to do is send
    /// SIGTERM.
    pub fn begin() -> (r: (Terminator, TerminateAction))
        ensures
            r.0.phase == TerminatePhase::Grace,
            r.1 == TerminateAction::SendTerm,
    {
        (Terminator { phase: TerminatePhase::Grace }, TerminateAction::SendTerm)
    }

    /// Take the result of a check of the group and the time since the last
    /// signal; say what to do next.
    pub fn step(&mut self, group_alive: bool, elapsed_ms: u64) -> (a: TerminateAction)
        ensures
            (final(self).phase, a) == terminate_step(old(self).phase, group_alive, elapsed_ms),
    {
        let (phase, a) = match self.phase {
            TerminatePhase::Grace => if elapsed_ms >= KILL_GRACE_MS {
                (TerminatePhase::Killed, TerminateAction::SendKill)
            } else if !group_alive {
                (TerminatePhase::Over, TerminateAction::Done(true))
            } else {
                (TerminatePhase::Grace, TerminateAction::Sleep(GRACE_POLL_MS))
            },
            TerminatePhase::Killed => if group_alive && elapsed_ms < KILL_WAIT_MS {
                (TerminatePhase::Killed, TerminateAction::Sleep(KILL_POLL_MS))
            } else {
                (TerminatePhase::Over, TerminateAction::Done(!group_alive))
            },
            TerminatePhase::Over => (TerminatePhase::Over, TerminateAction::Done(!group_alive)),
        };
        self.phase = phase;
        a
    }
}

/// SIGKILL is sent at most once: after it the teardown only sleeps or ends,
/// and it is sent exactly when the grace period has run out.
pub proof fn kill_sent_once(phase: TerminatePhase, group_alive: bool, elapsed_ms: u64)
    ensures
        terminate_step(phase, group_alive, elapsed_ms).1 == TerminateAction::SendKill <==> (phase
            == TerminatePhase::Grace && elapsed_ms >= KILL_GRACE_MS),
        phase != TerminatePhase::Grace ==> terminate_step(phase, group_alive, elapsed_ms).0
            != TerminatePhase::Grace,
{
}

/// A teardown that reports success has seen the group gone.
pub proof fn done_true_means_gone(phase: TerminatePhase, group_alive: bool, elapsed_ms: u64)
    ensures
        terminate_step(phase, group_alive, elapsed_ms).1 == TerminateAction::Done(true)
            ==> !group_alive,
{
}

// ---------------------------------------------------------------------------
// Laws of the lifecycle
// ---------------------------------------------------------------------------
/// When a healthy dsh already serves the port, the launcher connects to it:
/// it shows dsh as ready and never spawns a child. While it watches that
/// instance, it never spawns one and never kills a process, and it leaves the
/// recorded process group alone.
pub proof fn existing_instance_is_only_watched(
    s: Supervisor,
    st: LauncherState,
    ev: SuperviseEvent,
    t: Supervisor,
    st2: LauncherState,
    a: SuperviseAction,
)
    requires
        supervise_step(s, st, ev, t, st2, a),
        answers(s.phase, ev),
        s.phase == Phase::Existing || (s.phase == Phase::Probing && ev == SuperviseEvent::Signature(
            true,
        )),
    ensures
        t.phase == Phase::Existing || t.phase == Phase::Done,
        !(a is Spawn),
        !(a matches SuperviseAction::Finish { kill_child: true, .. }),
        st2.pgid == st.pgid,
        s.phase == Phase::Probing ==> a is NavigateToDsh && st2.status.state@ == ST_READY@,
{
}

} // verus!
