use post_config::{ArticleConfig, MyTextBuffer};

fn titled(title: &str) -> ArticleConfig {
    ArticleConfig::new(title.to_string(), "2024-01-05".to_string(), Vec::new(), Vec::new())
}

#[test]
fn insert_past_end_appends() {
    let mut a = titled("abc");
    {
        let mut b = a.get_title_buffer();
        assert_eq!(b.insert_text("x", 100), 1);
        assert_eq!(b.as_str(), "abcx");
    }
    assert_eq!(a.title(), "abcx");
}

#[test]
fn insert_counts_characters_not_bytes() {
    let mut s = "héllo".to_string();
    let mut b = MyTextBuffer::new(&mut s);
    assert!(b.is_mutable());
    assert_eq!(b.insert_text("ßü", 2), 2);
    assert_eq!(b.as_str(), "héßüllo");
    assert_eq!(b.insert_text("", 0), 0);
    assert_eq!(s, "héßüllo");
}

#[test]
fn delete_char_range_removes_span() {
    let mut s = "añbcd".to_string();
    let mut b = MyTextBuffer::new(&mut s);
    b.delete_char_range(1..3);
    assert_eq!(b.as_str(), "acd");
    b.delete_char_range(2..50);
    assert_eq!(b.as_str(), "ac");
    b.delete_char_range(1..1);
    assert_eq!(b.as_str(), "ac");
    b.delete_char_range(7..9);
    assert_eq!(s, "ac");
}

#[test]
fn clear_replace_take() {
    let mut a = titled("Hello");
    {
        let mut b = a.get_title_buffer();
        b.clear();
        assert_eq!(b.as_str(), "");
        b.replace("New Title");
        assert_eq!(b.take(), "New Title");
        assert_eq!(b.as_str(), "");
        b.replace("Kept");
    }
    assert_eq!(a.title(), "Kept");
}
