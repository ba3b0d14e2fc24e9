use dsh_launcher::preview::{preview_len, PREVIEW_LIMIT};

#[test]
fn preview_keeps_whole_characters() {
    assert_eq!(PREVIEW_LIMIT, 1024 * 1024);
    assert_eq!(preview_len(b""), 0);
    assert_eq!(preview_len(b"abc"), 3);
    let s = "a中".as_bytes();
    assert_eq!(preview_len(s), 4);
    assert_eq!(preview_len(&s[..3]), 1);
    assert_eq!(preview_len(&s[..2]), 1);
    let e = "x😀".as_bytes();
    assert_eq!(preview_len(e), 5);
    assert_eq!(preview_len(&e[..4]), 1);
    assert_eq!(preview_len("é".as_bytes()), 2);
    assert_eq!(preview_len(&"é".as_bytes()[..1]), 0);
}

#[test]
fn preview_of_cut_text_is_utf8() {
    let text = "日本語のテキスト😀 and ascii".repeat(50);
    let bytes = text.as_bytes();
    for n in 0..bytes.len() {
        let k = preview_len(&bytes[..n]);
        assert!(k + 3 >= n && k <= n);
        assert!(std::str::from_utf8(&bytes[..k]).is_ok());
    }
}
