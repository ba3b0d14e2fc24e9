use dsh_launcher::inject::{archive, assemble_inject_js, right_sidebar};

fn fragments() -> (String, String, String, String) {
    let common = "function rpc(m) { return m; }\n  var css = '.x { color: red; }';".to_string();
    let archive = archive::js_module(&vec![
        "var BTN_ID = 'dsh-archive-all-btn';\n".to_string(),
        "function initArchive() {\n    if (window.__a) { return; }\n    window.__a = true;\n  }\n".to_string(),
    ]);
    let sidebar = right_sidebar::js_module(&vec![
        "var SIDEBAR_ID = 'dsh-right-sidebar';\n".to_string(),
        "function initRightSidebar() {\n    return SIDEBAR_ID;\n  }\n".to_string(),
    ]);
    let file_link = "function initFileLinkInterceptor() { document.addEventListener('click', function (e) {}); }".to_string();
    (common, archive, sidebar, file_link)
}

#[test]
fn assembled_bundle_is_an_iife() {
    let (c, a, r, f) = fragments();
    let js = assemble_inject_js(&c, &a, &r, &f);
    assert!(js.starts_with("(function() {"));
    assert!(js.ends_with("})()"));
    assert!(js.contains("function initArchive()"));
    assert!(js.contains("function initRightSidebar()"));
}

#[test]
fn braces_are_balanced_across_all_fragments() {
    let (c, a, r, f) = fragments();
    let js = assemble_inject_js(&c, &a, &r, &f);
    assert_eq!(
        js.matches('{').count(),
        js.matches('}').count(),
        "注入脚本花括号不配平：某片段存在结构性残缺"
    );
}

#[test]
fn bundle_frame_is_exact() {
    let js = assemble_inject_js("C", "A", "R", "F");
    assert_eq!(
        js,
        "(function() {\n  // ===== 共享工具函数 =====\n  C\n\n  // ===== 归档功能 =====\n  A\n\n  // ===== 右侧侧边栏 =====\n  R\n\n  // ===== 文件链接拦截 =====\n  F\n\n  // ===== 初始化 =====\n  initArchive();\n  initRightSidebar();\n  initFileLinkInterceptor();\n})()"
    );
    assert_eq!(archive::js_module(&vec!["a".to_string(), "b".to_string(), "c".to_string()]), "abc");
    assert_eq!(right_sidebar::js_module(&vec![]), "");
}
