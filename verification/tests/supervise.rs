use dsh_launcher::candidate::{DshCandidate, LocateOutcome, Source};
use dsh_launcher::supervise::{RestartAction, RestartEvent, RestartPhase, Restarter};
use dsh_launcher::supervise::{
    after_lifecycle, candidate_views, launcher_origin, missing_dsh_message, new_state,
    not_ready_message, ChildState, Lifecycle, Phase, RunEnd, SuperviseAction, SuperviseEvent,
    Supervisor,
};

#[test]
fn superseded_and_stop_current_run() {
    let mut st = new_state("/s/settings.json".to_string(), 3080);
    assert!(!st.superseded(0));
    st.pgid = Some(77);
    assert_eq!(st.stop_current_run(), Some(77));
    assert_eq!(st.generation, 1);
    assert!(st.superseded(0));
    assert_eq!(st.pgid, None);
    st.generation = u64::MAX;
    st.stop_current_run();
    assert_eq!(st.generation, 0);
}

#[test]
fn teardown_runs_once() {
    let mut st = new_state("/s".to_string(), 3080);
    st.pgid = Some(5);
    assert_eq!(st.teardown(), Some(5));
    assert!(st.stopping && st.torn_down);
    st.pgid = Some(9);
    assert_eq!(st.teardown(), None);
    assert_eq!(st.pgid, Some(9));
    assert!(st.superseded(st.generation));
}

#[test]
fn existing_instance_is_watched_until_lost() {
    let mut st = new_state("/s".to_string(), 3080);
    let (mut sup, a) = Supervisor::begin(&st, 3080);
    assert!(matches!(a, SuperviseAction::CheckSignature));
    let a = sup.step(&mut st, SuperviseEvent::Signature(true));
    assert!(matches!(a, SuperviseAction::NavigateToDsh));
    assert_eq!(st.status.state, "ready");
    assert_eq!(st.status.message.as_deref(), Some("http://127.0.0.1:3080"));
    assert!(matches!(sup.step(&mut st, SuperviseEvent::Navigated), SuperviseAction::Sleep));
    assert!(matches!(sup.step(&mut st, SuperviseEvent::Slept), SuperviseAction::CheckSignature));
    match sup.step(&mut st, SuperviseEvent::Signature(false)) {
        SuperviseAction::Finish { lifecycle: Lifecycle::ConnectionLost(m), kill_child, show_page } => {
            assert_eq!(m, "已连接的 dsh 实例停止响应");
            assert!(!kill_child && !show_page);
        }
        other => panic!("unexpected {other:?}"),
    }
    assert_eq!(sup.phase, Phase::Done);
}

#[test]
fn spawned_child_lifecycle() {
    let mut st = new_state("/s".to_string(), 4000);
    let (mut sup, _) = Supervisor::begin(&st, 4000);
    assert!(matches!(sup.step(&mut st, SuperviseEvent::Signature(false)), SuperviseAction::Spawn));
    assert!(matches!(sup.step(&mut st, SuperviseEvent::Spawned(Ok(321))), SuperviseAction::WaitReady));
    assert_eq!(st.pgid, Some(321));
    assert_eq!(st.status.state, "starting");
    let a = sup.step(&mut st, SuperviseEvent::Readiness { ready: true, port_answers: true });
    assert!(matches!(a, SuperviseAction::NavigateToDsh));
    assert!(matches!(sup.step(&mut st, SuperviseEvent::Navigated), SuperviseAction::PollChild));
    assert!(matches!(sup.step(&mut st, SuperviseEvent::Child(ChildState::Running)), SuperviseAction::Sleep));
    // A newer run was requested meanwhile: this one stops and kills its child.
    st.generation += 1;
    match sup.step(&mut st, SuperviseEvent::Slept) {
        SuperviseAction::Finish { lifecycle, kill_child, .. } => {
            assert_eq!(lifecycle, Lifecycle::Aborted);
            assert!(kill_child);
        }
        other => panic!("unexpected {other:?}"),
    }
}

#[test]
fn start_failures_are_explained() {
    let mut st = new_state("/s".to_string(), 4000);
    let (mut sup, _) = Supervisor::begin(&st, 4000);
    sup.step(&mut st, SuperviseEvent::Signature(false));
    match sup.step(&mut st, SuperviseEvent::Spawned(Err("no such file".to_string()))) {
        SuperviseAction::Finish { lifecycle: Lifecycle::StartFailed, show_page: true, .. } => {}
        other => panic!("unexpected {other:?}"),
    }
    assert_eq!(st.status.state, "error");
    assert_eq!(st.status.message.as_deref(), Some("无法启动 dsh: no such file"));

    let mut st = new_state("/s".to_string(), 4000);
    let (mut sup, _) = Supervisor::begin(&st, 4000);
    sup.step(&mut st, SuperviseEvent::Signature(false));
    sup.step(&mut st, SuperviseEvent::Spawned(Ok(9)));
    sup.step(&mut st, SuperviseEvent::Readiness { ready: false, port_answers: true });
    assert_eq!(st.pgid, None);
    assert_eq!(st.status.message.as_deref(), Some("端口 4000 已被其他程序占用；请在下方设置中修改 dsh 端口。"));
    assert_eq!(
        not_ready_message(4000, false),
        "dsh 在 30 秒内未就绪。请确认 dsh 版本支持 --port，且 web profile 可用。"
    );
}

#[test]
fn child_exit_clears_group() {
    let mut st = new_state("/s".to_string(), 4000);
    let (mut sup, _) = Supervisor::begin(&st, 4000);
    sup.step(&mut st, SuperviseEvent::Signature(false));
    sup.step(&mut st, SuperviseEvent::Spawned(Ok(9)));
    sup.step(&mut st, SuperviseEvent::Readiness { ready: true, port_answers: false });
    match sup.step(&mut st, SuperviseEvent::Child(ChildState::Exited { success: true })) {
        SuperviseAction::Finish { lifecycle, .. } => assert_eq!(lifecycle, Lifecycle::Exited { success: true }),
        other => panic!("unexpected {other:?}"),
    }
    assert_eq!(st.pgid, None);
}

#[test]
fn what_follows_a_lifecycle() {
    assert_eq!(after_lifecycle(Lifecycle::Aborted), RunEnd::Stay);
    assert_eq!(after_lifecycle(Lifecycle::StartFailed), RunEnd::Stay);
    assert_eq!(
        after_lifecycle(Lifecycle::Exited { success: true }),
        RunEnd::OfferRestart("dsh 已正常退出（可能通过 Web 界面关机）。点击「重新启动」可再次拉起。".to_string())
    );
    assert_eq!(
        after_lifecycle(Lifecycle::Exited { success: false }),
        RunEnd::ExitApp("dsh 进程异常退出；退出桌面应用。".to_string())
    );
    assert_eq!(
        after_lifecycle(Lifecycle::ConnectionLost("断了".to_string())),
        RunEnd::ExitApp("断了；退出桌面应用。".to_string())
    );
}

#[test]
fn origin_and_views() {
    assert_eq!(launcher_origin("", Some("http://localhost:1420//".to_string())), "http://localhost:1420");
    assert_eq!(launcher_origin("", None), "tauri://localhost");
    assert_eq!(launcher_origin("", Some("///".to_string())), "tauri://localhost");
    assert_eq!(launcher_origin("tauri://x", Some("http://y/".to_string())), "tauri://x");
    assert!(missing_dsh_message("/s/settings.json").ends_with("设置文件位于：/s/settings.json"));
    let outcome = LocateOutcome {
        primary: None,
        candidates: vec![DshCandidate {
            executable: "/a/dsh".to_string(),
            node: None,
            version: "1.0".to_string(),
            source: Source::PathFile,
        }],
    };
    let v = candidate_views(&outcome);
    assert_eq!(v[0].source, "path-file");
    assert_eq!(v[0].executable, "/a/dsh");
}

#[test]
fn restart_of_an_unowned_dsh_clears_the_port() {
    let mut r = Restarter::new();
    assert_eq!(r.step(RestartEvent::Started { owned: true }), RestartAction::Relaunch);

    let mut r = Restarter::new();
    assert_eq!(r.step(RestartEvent::Started { owned: false }), RestartAction::KillPortOwner);
    assert_eq!(r.step(RestartEvent::Killed(vec![11, 12])), RestartAction::Probe);
    assert_eq!(r.step(RestartEvent::Probed { serving: true, expired: false }), RestartAction::Sleep);
    assert_eq!(r.step(RestartEvent::Slept), RestartAction::Probe);
    assert_eq!(r.step(RestartEvent::Probed { serving: true, expired: true }), RestartAction::Probe);
    assert_eq!(r.phase, RestartPhase::Recheck);
    assert_eq!(r.step(RestartEvent::Probed { serving: true, expired: true }), RestartAction::ForceKill(vec![11, 12]));
    assert_eq!(r.step(RestartEvent::ForceKilled), RestartAction::Probe);
    assert_eq!(r.step(RestartEvent::Probed { serving: false, expired: false }), RestartAction::Relaunch);
    assert_eq!(r.phase, RestartPhase::Done);

    let mut r = Restarter::new();
    r.step(RestartEvent::Started { owned: false });
    r.step(RestartEvent::Killed(vec![]));
    assert_eq!(r.step(RestartEvent::Probed { serving: false, expired: false }), RestartAction::Probe);
    assert_eq!(r.step(RestartEvent::Probed { serving: false, expired: false }), RestartAction::Relaunch);
}

use dsh_launcher::supervise::{ready_step, ReadyAction, TerminateAction, TerminatePhase, Terminator};

#[test]
fn readiness_wait_polls_until_deadline() {
    assert_eq!(ready_step(true, 0), ReadyAction::Done(true));
    assert_eq!(ready_step(true, 45_000), ReadyAction::Done(true));
    assert_eq!(ready_step(false, 0), ReadyAction::SleepThenProbe);
    assert_eq!(ready_step(false, 29_999), ReadyAction::SleepThenProbe);
    assert_eq!(ready_step(false, 30_000), ReadyAction::Done(false));
}

#[test]
fn teardown_terms_then_kills_after_grace() {
    let (mut t, first) = Terminator::begin();
    assert_eq!(first, TerminateAction::SendTerm);
    assert_eq!(t.step(true, 0), TerminateAction::Sleep(200));
    assert_eq!(t.step(true, 4_999), TerminateAction::Sleep(200));
    assert_eq!(t.step(true, 5_000), TerminateAction::SendKill);
    assert_eq!(t.phase, TerminatePhase::Killed);
    assert_eq!(t.step(true, 50), TerminateAction::Sleep(100));
    assert_eq!(t.step(true, 2_000), TerminateAction::Done(false));
    assert_eq!(t.phase, TerminatePhase::Over);
}

#[test]
fn teardown_ends_when_group_is_gone() {
    let (mut t, _) = Terminator::begin();
    assert_eq!(t.step(false, 300), TerminateAction::Done(true));
    let (mut k, _) = Terminator::begin();
    assert_eq!(k.step(true, 6_000), TerminateAction::SendKill);
    assert_eq!(k.step(false, 100), TerminateAction::Done(true));
}

use dsh_launcher::supervise::record_outcome;

#[test]
fn missing_dsh_shows_setup_and_launches_nothing() {
    let mut st = new_state("/s/settings.json".to_string(), 3080);
    let none = LocateOutcome { primary: None, candidates: vec![] };
    assert!(record_outcome(&mut st, &none, "/s/settings.json").is_none());
    assert_eq!(st.status.state, "missing-dsh");
    assert_eq!(st.status.message.as_deref(), Some(missing_dsh_message("/s/settings.json").as_str()));
    let c = DshCandidate { executable: "/x/dsh".to_string(), node: None, version: "1.0".to_string(), source: Source::Scanned };
    let found = LocateOutcome { primary: Some(c.clone()), candidates: vec![c] };
    let primary = record_outcome(&mut st, &found, "/s/settings.json").unwrap();
    assert_eq!(primary.executable, "/x/dsh");
    assert_eq!(st.status.state, "starting");
    assert!(st.status.message.is_none());
    assert_eq!(st.status.candidates.len(), 1);
    assert_eq!(st.status.candidates[0].source, "scanned");
}
