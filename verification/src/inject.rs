//! The script injected into the dsh web view: its fragments joined into one
//! immediately-invoked function that then starts each feature.
use crate::text::{chars_of, has_prefix, has_suffix, push_chars, string_views};
use vstd::prelude::*;

pub mod archive;
pub mod right_sidebar;

verus! {

broadcast use vstd::string::group_string_axioms;

/// The fragments joined in order.
pub open spec fn joined(parts: Seq<Seq<char>>) -> Seq<char>
    decreases parts.len(),
{
    if parts.len() == 0 {
        Seq::empty()
    } else {
        joined(parts.drop_last()) + parts.last()
    }
}

/// Join script fragments in order.
pub fn join_fragments(fragments: &Vec<String>) -> (r: String)
    ensures
        r@ == joined(string_views(fragments@)),
{
    let ghost fv = string_views(fragments@);
    let mut s = String::new();
    let mut i: usize = 0;
    while i < fragments.len()
        invariant
            i <= fragments.len(),
            fv == string_views(fragments@),
            s@ == joined(fv.take(i as int)),
        decreases fragments.len() - i,
    {
        assert(fv.take(i + 1).drop_last() =~= fv.take(i as int));
        assert(fv.take(i + 1).last() == fragments@[i as int]@);
        push_chars(&mut s, &chars_of(fragments[i].as_str()));
        i = i + 1;
    }
    assert(fv.take(fragments.len() as int) =~= fv);
    s
}

/// The whole injected script around the four parts.
pub open spec fn bundle(common: Seq<char>, archive: Seq<char>, right_sidebar: Seq<char>, file_link: Seq<char>) -> Seq<char> {
    "(function() {\n  // ===== 共享工具函数 =====\n  "@ + common
        + "\n\n  // ===== 归档功能 =====\n  "@ + archive
        + "\n\n  // ===== 右侧侧边栏 =====\n  "@ + right_sidebar
        + "\n\n  // ===== 文件链接拦截 =====\n  "@ + file_link
        + "\n\n  // ===== 初始化 =====\n  initArchive();\n  initRightSidebar();\n  initFileLinkInterceptor();\n})()"@
}

/// Assemble the injected script: the shared helpers, the archive feature,
/// the right sidebar and the file-link interceptor, in one IIFE that starts
/// the three features.
pub fn assemble_inject_js(common: &str, archive: &str, right_sidebar: &str, file_link: &str) -> (r:
    String)
    ensures
        r@ == bundle(common@, archive@, right_sidebar@, file_link@),
{
    let mut s = String::from_str("(function() {\n  // ===== 共享工具函数 =====\n  ");
    push_chars(&mut s, &chars_of(common));
    push_chars(&mut s, &chars_of("\n\n  // ===== 归档功能 =====\n  "));
    push_chars(&mut s, &chars_of(archive));
    push_chars(&mut s, &chars_of("\n\n  // ===== 右侧侧边栏 =====\n  "));
    push_chars(&mut s, &chars_of(right_sidebar));
    push_chars(&mut s, &chars_of("\n\n  // ===== 文件链接拦截 =====\n  "));
    push_chars(&mut s, &chars_of(file_link));
    push_chars(
        &mut s,
        &chars_of(
            "\n\n  // ===== 初始化 =====\n  initArchive();\n  initRightSidebar();\n  initFileLinkInterceptor();\n})()",
        ),
    );
    s
}

// ---------------------------------------------------------------------------
// Laws of the bundle
// ---------------------------------------------------------------------------
/// How many times `c` occurs in `s`.
pub open spec fn count_char(s: Seq<char>, c: char) -> nat
    decreases s.len(),
{
    if s.len() == 0 {
        0
    } else {
        count_char(s.drop_last(), c) + if s.last() == c {
            1nat
        } else {
            0nat
        }
    }
}

proof fn lemma_count_concat(a: Seq<char>, b: Seq<char>, c: char)
    ensures
        count_char(a + b, c) == count_char(a, c) + count_char(b, c),
    decreases b.len(),
{
    if b.len() == 0 {
        assert(a + b =~= a);
    } else {
        lemma_count_concat(a, b.drop_last(), c);
        assert((a + b).drop_last() =~= a + b.drop_last());
    }
}

/// Whether `s` has as many `{` as `}`.
pub open spec fn braces_balanced(s: Seq<char>) -> bool {
    count_char(s, '{') == count_char(s, '}')
}

proof fn lemma_count_absent(s: Seq<char>, c: char)
    requires
        !s.contains(c),
    ensures
        count_char(s, c) == 0,
    decreases s.len(),
{
    if s.len() > 0 {
        assert(s.last() == s[s.len() - 1]);
        assert forall|i: int| 0 <= i < s.drop_last().len() implies s.drop_last()[i] != c by {
            assert(s.drop_last()[i] == s[i]);
        }
        lemma_count_absent(s.drop_last(), c);
    }
}

/// `s` has neither brace.
proof fn lemma_no_braces(s: Seq<char>)
    requires
        forall|i: int| 0 <= i < s.len() ==> s[i] != '{' && s[i] != '}',
    ensures
        count_char(s, '{') == 0,
        count_char(s, '}') == 0,
{
    lemma_count_absent(s, '{');
    lemma_count_absent(s, '}');
}

proof fn lemma_frame_open()
    ensures
        count_char("(function() {\n  // ===== 共享工具函数 =====\n  "@, '{') == 1,
        count_char("(function() {\n  // ===== 共享工具函数 =====\n  "@, '}') == 0,
{
    let a = "(function() "@;
    let b = "{"@;
    let c = "\n  // ===== 共享工具函数 =====\n  "@;
    reveal_strlit("(function() {\n  // ===== 共享工具函数 =====\n  ");
    reveal_strlit("(function() ");
    reveal_strlit("{");
    reveal_strlit("\n  // ===== 共享工具函数 =====\n  ");
    assert(a + b + c =~= "(function() {\n  // ===== 共享工具函数 =====\n  "@);
    lemma_no_braces(a);
    lemma_no_braces(c);
    assert(b.drop_last() =~= Seq::<char>::empty());
    assert(b.len() == 1 && b.last() == '{');
    assert(count_char(b.drop_last(), '{') == 0 && count_char(b.drop_last(), '}') == 0);
    assert(count_char(b, '{') == 1);
    assert(count_char(b, '}') == 0);
    lemma_count_concat(a, b, '{');
    lemma_count_concat(a, b, '}');
    lemma_count_concat(a + b, c, '{');
    lemma_count_concat(a + b, c, '}');
}

proof fn lemma_frame_middle()
    ensures
        count_char("\n\n  // ===== 归档功能 =====\n  "@, '{') == 0,
        count_char("\n\n  // ===== 归档功能 =====\n  "@, '}') == 0,
        count_char("\n\n  // ===== 右侧侧边栏 =====\n  "@, '{') == 0,
        count_char("\n\n  // ===== 右侧侧边栏 =====\n  "@, '}') == 0,
        count_char("\n\n  // ===== 文件链接拦截 =====\n  "@, '{') == 0,
        count_char("\n\n  // ===== 文件链接拦截 =====\n  "@, '}') == 0,
{
    reveal_strlit("\n\n  // ===== 归档功能 =====\n  ");
    reveal_strlit("\n\n  // ===== 右侧侧边栏 =====\n  ");
    reveal_strlit("\n\n  // ===== 文件链接拦截 =====\n  ");
    lemma_no_braces("\n\n  // ===== 归档功能 =====\n  "@);
    lemma_no_braces("\n\n  // ===== 右侧侧边栏 =====\n  "@);
    lemma_no_braces("\n\n  // ===== 文件链接拦截 =====\n  "@);
}

proof fn lemma_frame_close()
    ensures
        count_char(
            "\n\n  // ===== 初始化 =====\n  initArchive();\n  initRightSidebar();\n  initFileLinkInterceptor();\n})()"@,
            '{',
        ) == 0,
        count_char(
            "\n\n  // ===== 初始化 =====\n  initArchive();\n  initRightSidebar();\n  initFileLinkInterceptor();\n})()"@,
            '}',
        ) == 1,
{
    let a = "\n\n  // ===== 初始化 =====\n  initArchive();\n  initRightSidebar();\n  initFileLinkInterceptor();\n"@;
    let b = "}"@;
    let c = ")()"@;
    reveal_strlit(
        "\n\n  // ===== 初始化 =====\n  initArchive();\n  initRightSidebar();\n  initFileLinkInterceptor();\n})()",
    );
    reveal_strlit("\n\n  // ===== 初始化 =====\n  initArchive();\n  initRightSidebar();\n  initFileLinkInterceptor();\n");
    reveal_strlit("}");
    reveal_strlit(")()");
    assert(a + b + c =~= "\n\n  // ===== 初始化 =====\n  initArchive();\n  initRightSidebar();\n  initFileLinkInterceptor();\n})()"@);
    lemma_no_braces(a);
    lemma_no_braces(c);
    assert(b.drop_last() =~= Seq::<char>::empty());
    assert(b.len() == 1 && b.last() == '}');
    assert(count_char(b.drop_last(), '{') == 0 && count_char(b.drop_last(), '}') == 0);
    assert(count_char(b, '{') == 0);
    assert(count_char(b, '}') == 1);
    lemma_count_concat(a, b, '{');
    lemma_count_concat(a, b, '}');
    lemma_count_concat(a + b, c, '{');
    lemma_count_concat(a + b, c, '}');
}

/// The bundle is balanced in braces whenever its four parts are: the frame
/// around them opens and closes one brace.
pub proof fn bundle_keeps_braces_balanced(
    common: Seq<char>,
    archive: Seq<char>,
    right_sidebar: Seq<char>,
    file_link: Seq<char>,
)
    requires
        braces_balanced(common),
        braces_balanced(archive),
        braces_balanced(right_sidebar),
        braces_balanced(file_link),
    ensures
        braces_balanced(bundle(common, archive, right_sidebar, file_link)),
{
    let p0 = "(function() {\n  // ===== 共享工具函数 =====\n  "@;
    let p1 = "\n\n  // ===== 归档功能 =====\n  "@;
    let p2 = "\n\n  // ===== 右侧侧边栏 =====\n  "@;
    let p3 = "\n\n  // ===== 文件链接拦截 =====\n  "@;
    let p4 = "\n\n  // ===== 初始化 =====\n  initArchive();\n  initRightSidebar();\n  initFileLinkInterceptor();\n})()"@;
    lemma_frame_open();
    lemma_frame_middle();
    lemma_frame_close();
    let s1 = p0 + common;
    let s2 = s1 + p1;
    let s3 = s2 + archive;
    let s4 = s3 + p2;
    let s5 = s4 + right_sidebar;
    let s6 = s5 + p3;
    let s7 = s6 + file_link;
    let s8 = s7 + p4;
    assert(s8 == bundle(common, archive, right_sidebar, file_link));
    lemma_count_concat(p0, common, '{');
    lemma_count_concat(p0, common, '}');
    lemma_count_concat(s1, p1, '{');
    lemma_count_concat(s1, p1, '}');
    lemma_count_concat(s2, archive, '{');
    lemma_count_concat(s2, archive, '}');
    lemma_count_concat(s3, p2, '{');
    lemma_count_concat(s3, p2, '}');
    lemma_count_concat(s4, right_sidebar, '{');
    lemma_count_concat(s4, right_sidebar, '}');
    lemma_count_concat(s5, p3, '{');
    lemma_count_concat(s5, p3, '}');
    lemma_count_concat(s6, file_link, '{');
    lemma_count_concat(s6, file_link, '}');
    lemma_count_concat(s7, p4, '{');
    lemma_count_concat(s7, p4, '}');
}

/// The bundle is an immediately invoked function, whatever its parts.
pub proof fn bundle_is_iife(common: Seq<char>, archive: Seq<char>, right_sidebar: Seq<char>, file_link: Seq<char>)
    ensures
        has_prefix(bundle(common, archive, right_sidebar, file_link), "(function() {"@),
        has_suffix(bundle(common, archive, right_sidebar, file_link), "})()"@),
{
    let b = bundle(common, archive, right_sidebar, file_link);
    let p0 = "(function() {\n  // ===== 共享工具函数 =====\n  "@;
    let p4 = "\n\n  // ===== 初始化 =====\n  initArchive();\n  initRightSidebar();\n  initFileLinkInterceptor();\n})()"@;
    reveal_strlit("(function() {\n  // ===== 共享工具函数 =====\n  ");
    reveal_strlit(
        "\n\n  // ===== 初始化 =====\n  initArchive();\n  initRightSidebar();\n  initFileLinkInterceptor();\n})()",
    );
    reveal_strlit("(function() {");
    reveal_strlit("})()");
    let rest = common + "\n\n  // ===== 归档功能 =====\n  "@ + archive + "\n\n  // ===== 右侧侧边栏 =====\n  "@
        + right_sidebar + "\n\n  // ===== 文件链接拦截 =====\n  "@ + file_link;
    assert(b =~= p0 + rest + p4);
    assert(b.subrange(0, 13) =~= p0.subrange(0, 13));
    assert(p0.subrange(0, 13) =~= "(function() {"@);
    assert(b.subrange(b.len() - 4, b.len() as int) =~= p4.subrange(p4.len() - 4, p4.len() as int));
    assert(p4.subrange(p4.len() - 4, p4.len() as int) =~= "})()"@);
}

} // verus!
