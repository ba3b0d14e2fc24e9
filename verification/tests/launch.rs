use dsh_launcher::candidate::{DshCandidate, Source};
use dsh_launcher::launch::{
    apply_selection, build_env_snapshot, build_launch_plan, default_port, env_value, gui_url,
    resolve_node, AppSettings, PathCheck, DEFAULT_PORT,
};
use dsh_launcher::paths::{dsh_home, expand_home, settings_path, workspace_storage_path};

fn no_env() -> Vec<dsh_launcher::launch::EnvVar> {
    Vec::new()
}

#[test]
fn default_settings_use_port_3080() {
    let s = AppSettings::default();
    assert_eq!(s.port, DEFAULT_PORT);
    assert_eq!(s.port, 3080);
}

#[test]
fn launch_plan_includes_no_open_and_loopback() {
    let home = "/Users/tester";
    let candidate = DshCandidate {
        executable: "/opt/homebrew/bin/dsh".to_string(),
        node: Some("/opt/homebrew/bin/node".to_string()),
        version: "0.1.0-rc.7".into(),
        source: Source::UserSpecified,
    };
    let settings = AppSettings {
        dsh_path: Some("/opt/homebrew/bin/dsh".to_string()),
        node_path: None,
        port: 3080,
        profile: None,
        source: "test".into(),
    };
    let plan = build_launch_plan(&candidate, &settings, home, no_env());
    assert_eq!(plan.program, "/opt/homebrew/bin/node".to_string());
    assert_eq!(plan.args[0], "/opt/homebrew/bin/dsh");
    assert!(plan.args.contains(&"web".to_string()));
    assert!(plan.args.contains(&"--host".to_string()));
    assert!(plan.args.contains(&"127.0.0.1".to_string()));
    assert!(plan.args.contains(&"--port".to_string()));
    assert!(plan.args.contains(&"3080".to_string()));
    assert!(plan.args.contains(&"--no-open".to_string()));
    assert_eq!(plan.cwd, home);
}

#[test]
fn launch_plan_without_node_uses_shebang_executable() {
    let home = "/Users/tester";
    let candidate = DshCandidate {
        executable: "/usr/local/bin/dsh".to_string(),
        node: None,
        version: "0.1.0".into(),
        source: Source::Scanned,
    };
    let settings = AppSettings::default();
    let plan = build_launch_plan(&candidate, &settings, home, no_env());
    assert_eq!(plan.program, "/usr/local/bin/dsh".to_string());
    assert!(!plan.args.contains(&"/usr/local/bin/dsh".to_string()));
}

#[test]
fn launch_plan_honors_profile() {
    let home = "/Users/tester";
    let candidate = DshCandidate {
        executable: "/x/dsh".to_string(),
        node: Some("/x/node".to_string()),
        version: "0.1.0".into(),
        source: Source::UserSpecified,
    };
    let settings = AppSettings { profile: Some("desktop".into()), ..Default::default() };
    let plan = build_launch_plan(&candidate, &settings, home, no_env());
    let i = plan.args.iter().position(|a| a == "--profile").unwrap();
    assert_eq!(plan.args[i + 1], "desktop");
}

#[test]
fn env_snapshot_has_required_keys() {
    let home = "/Users/tester";
    let env = build_env_snapshot(home, "/usr/bin:/bin".to_string(), None, None, None, None);
    assert_eq!(env_value(&env, "HOME").unwrap(), "/Users/tester");
    assert!(env_value(&env, "PATH").is_some());
    assert!(env_value(&env, "SHELL").is_some());
    assert!(env_value(&env, "LANG").is_some());
    assert!(env_value(&env, "TERM").is_some());
}

#[test]
fn env_snapshot_defaults_and_optional_keys() {
    let env = build_env_snapshot(
        "/h",
        "/p".to_string(),
        None,
        Some("zh_CN.UTF-8".to_string()),
        Some(String::new()),
        Some("/h/.nvm".to_string()),
    );
    assert_eq!(env_value(&env, "SHELL").unwrap(), "/bin/zsh");
    assert_eq!(env_value(&env, "LANG").unwrap(), "zh_CN.UTF-8");
    assert_eq!(env_value(&env, "NODE_PATH"), None);
    assert_eq!(env_value(&env, "NVM_DIR").unwrap(), "/h/.nvm");
    assert_eq!(env_value(&env, "TERM").unwrap(), "xterm-256color");
    assert_eq!(env.len(), 6);
}

#[test]
fn gui_url_uses_loopback() {
    assert_eq!(gui_url(3080), "http://127.0.0.1:3080");
}

#[test]
fn default_port_is_3080() {
    assert_eq!(default_port(), 3080);
}

#[test]
fn resolve_node_prefers_settings() {
    let candidate = DshCandidate {
        executable: "/x/dsh".to_string(),
        node: Some("/x/node".to_string()),
        version: "0.1.0".into(),
        source: Source::Scanned,
    };
    let mut settings = AppSettings::default();
    assert_eq!(resolve_node(&settings, &candidate).as_deref(), Some("/x/node"));
    settings.node_path = Some("/custom/node".to_string());
    assert_eq!(resolve_node(&settings, &candidate).as_deref(), Some("/custom/node"));
}

#[test]
fn selection_rejects_low_port_and_bad_files() {
    let s = AppSettings::default();
    let e = apply_selection(s.clone(), None, PathCheck::Usable, Some(80)).unwrap_err();
    assert_eq!(e, "端口需 ≥ 1024（当前 80）");
    let e = apply_selection(s.clone(), Some("/x".to_string()), PathCheck::NotFile, None).unwrap_err();
    assert_eq!(e, "路径不是可执行文件: /x");
    let e =
        apply_selection(s.clone(), Some("/x".to_string()), PathCheck::NotExecutable, None).unwrap_err();
    assert_eq!(e, "文件没有可执行权限（chmod +x）: /x");
    let ok = apply_selection(s, Some("/x/dsh".to_string()), PathCheck::Usable, Some(4040)).unwrap();
    assert_eq!(ok.dsh_path.as_deref(), Some("/x/dsh"));
    assert_eq!(ok.source, "user");
    assert_eq!(ok.port, 4040);
}

#[test]
fn expand_home_works() {
    let home = "/Users/tester";
    assert_eq!(expand_home("~/bin/dsh", home), "/Users/tester/bin/dsh");
    assert_eq!(expand_home("/abs/dsh", home), "/abs/dsh");
}

#[test]
fn dsh_home_prefers_env() {
    assert_eq!(dsh_home(Some("/tmp/x".to_string()), Some("/Users/t".to_string())), "/tmp/x");
    assert_eq!(dsh_home(Some("   ".to_string()), Some("/Users/t".to_string())), "/Users/t/.dsh");
    assert_eq!(dsh_home(None, None), "/.dsh");
}

#[test]
fn storage_paths_under_home() {
    assert_eq!(workspace_storage_path("/h/.dsh"), "/h/.dsh/storages/workspace.json");
    assert_eq!(
        settings_path(Some("/Users/t".to_string()), "com.example"),
        "/Users/t/Library/Application Support/com.example/settings.json"
    );
}
