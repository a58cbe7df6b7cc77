use post_config::{front_matter, initial_date, parse, today, ArticleConfig, ConfigError, Date};

fn article(title: &str, date: &str, categories: &[&str], tags: &[&str]) -> ArticleConfig {
    ArticleConfig::new(
        title.to_string(),
        date.to_string(),
        categories.iter().map(|s| s.to_string()).collect(),
        tags.iter().map(|s| s.to_string()).collect(),
    )
}

#[test]
fn date_formats_in_fixed_pattern() {
    let d = Date::from_ymd(2024, 1, 5).unwrap();
    assert_eq!(d.format(), "2024-01-05");
    let early = Date::from_ymd(7, 11, 30).unwrap();
    assert_eq!(early.format(), "0007-11-30");
}

#[test]
fn date_round_trips_through_text() {
    for (y, m, d) in [(2024, 1, 5), (2024, 2, 29), (0, 1, 1), (9999, 12, 31), (1999, 9, 30)] {
        let date = Date::from_ymd(y, m, d).unwrap();
        assert_eq!(parse(&date.format()), Ok(date));
    }
}

#[test]
fn date_parse_reads_fields() {
    let d = parse("2023-04-30").unwrap();
    assert_eq!((d.year(), d.month(), d.day()), (2023, 4, 30));
}

#[test]
fn date_parse_rejects_bad_shapes() {
    for s in ["", "2024-1-05", "2024-01-5", "2024/01/05", " 2024-01-05", "2024-01-05 ", "24-01-05", "2024-0a-05", "+2024-01-05"] {
        assert_eq!(parse(s), Err(ConfigError::InvalidFormat), "{}", s);
    }
}

#[test]
fn date_parse_rejects_missing_days() {
    for s in ["2024-13-01", "2024-00-10", "2024-01-00", "2023-02-29", "1900-02-29", "2024-04-31"] {
        assert_eq!(parse(s), Err(ConfigError::InvalidFormat), "{}", s);
    }
    assert!(parse("2000-02-29").is_ok());
}

#[test]
fn date_from_ymd_checks_calendar_and_range() {
    assert!(Date::from_ymd(2023, 2, 29).is_none());
    assert!(Date::from_ymd(2024, 2, 29).is_some());
    assert!(Date::from_ymd(10000, 1, 1).is_none());
    assert!(Date::from_ymd(-1, 1, 1).is_none());
    assert!(Date::from_ymd(2024, 6, 31).is_none());
}

#[test]
fn today_is_a_valid_date() {
    let d = today().unwrap();
    assert_eq!(parse(&d.format()), Ok(d));
}

#[test]
fn add_category_twice_is_refused() {
    let mut a = article("t", "2024-01-05", &[], &[]);
    assert_eq!(a.add_category("x".to_string()), Ok(()));
    assert_eq!(
        a.add_category("x".to_string()),
        Err(ConfigError::DuplicateEntry("x".to_string()))
    );
    assert_eq!(a.categories_len(), 1);
    assert_eq!(a.categories_to_string(), "x");
}

#[test]
fn add_tag_keeps_order_and_is_case_sensitive() {
    let mut a = article("t", "2024-01-05", &[], &[]);
    assert_eq!(a.add_tag("rust".to_string()), Ok(()));
    assert_eq!(a.add_tag("Rust".to_string()), Ok(()));
    assert_eq!(a.add_tag("gui".to_string()), Ok(()));
    assert_eq!(a.add_tag("rust".to_string()), Err(ConfigError::DuplicateEntry("rust".to_string())));
    assert_eq!(a.tags_to_string(), "rust Rust gui");
    assert_eq!(a.tags_len(), 3);
}

#[test]
fn delete_category_by_index() {
    let mut a = article("t", "2024-01-05", &["a", "b"], &[]);
    assert_eq!(a.delete_category(5), Err(ConfigError::IndexOutOfBounds(5)));
    assert_eq!(a.categories_to_string(), "a b");
    assert_eq!(a.delete_category(0), Ok(()));
    assert_eq!(a.categories_to_string(), "b");
    assert_eq!(a.categories_len(), 1);
}

#[test]
fn delete_tag_on_empty_collection() {
    let mut a = article("t", "2024-01-05", &[], &[]);
    assert_eq!(a.delete_tag(0), Err(ConfigError::EmptyCollection));
    assert_eq!(a.tags_len(), 0);
}

#[test]
fn delete_tag_shifts_later_entries() {
    let mut a = article("t", "2024-01-05", &[], &["a", "b", "c"]);
    assert_eq!(a.delete_tag(1), Ok(()));
    assert_eq!(a.tags_to_string(), "a c");
    assert_eq!(a.delete_tag(2), Err(ConfigError::IndexOutOfBounds(2)));
    assert_eq!(a.delete_category(0), Err(ConfigError::EmptyCollection));
}

#[test]
fn joined_text_of_empty_collection() {
    let a = article("t", "2024-01-05", &[], &[]);
    assert_eq!(a.tags_to_string(), "");
    assert_eq!(a.categories_to_string(), "");
}

#[test]
fn file_name_from_date_and_title() {
    let a = article("Hello World", "2024-01-05", &["tech"], &["rust", "gui"]);
    assert_eq!(a.file_name(), Ok("2024-01-05-Hello-World.md".to_string()));
    let b = article(" two  spaces ", "2020-02-02", &[], &[]);
    assert_eq!(b.file_name(), Ok("2020-02-02--two--spaces-.md".to_string()));
}

#[test]
fn front_matter_frames_yaml() {
    let doc = front_matter("title: Hello World");
    assert_eq!(doc, "---\ntitle: Hello World\n---\n");
    assert!(doc.starts_with("---\n"));
    assert!(doc.ends_with("\n---\n"));
}

#[test]
fn save_document_writes_framed_yaml() {
    let a = article("Hello World", "2024-01-05", &["tech"], &["rust", "gui"]);
    let doc = a.save_document("out/2024-01-05-Hello-World.md".to_string(), false, "title: x\n");
    assert_eq!(doc, Ok("---\ntitle: x\n\n---\n".to_string()));
}

#[test]
fn save_document_refuses_existing_file() {
    let a = article("Hello World", "2024-01-05", &[], &[]);
    let path = "out/2024-01-05-Hello-World.md".to_string();
    assert!(a.save_document(path.clone(), false, "y").is_ok());
    assert_eq!(
        a.save_document(path.clone(), true, "y"),
        Err(ConfigError::FileAlreadyExists(path))
    );
}

#[test]
fn save_with_empty_title_is_refused_first() {
    let a = article("", "2024-01-05", &[], &[]);
    assert_eq!(a.file_name(), Err(ConfigError::EmptyTitle));
    assert_eq!(a.save_document("p".to_string(), true, "y"), Err(ConfigError::EmptyTitle));
}

#[test]
fn get_and_set_date() {
    let mut a = article("t", "2024-01-05", &[], &[]);
    assert_eq!(a.get_date(), Ok(Date::from_ymd(2024, 1, 5).unwrap()));
    a.set_date(&Date::from_ymd(2025, 12, 1).unwrap());
    assert_eq!(a.get_date(), Ok(Date::from_ymd(2025, 12, 1).unwrap()));
    assert_eq!(a.file_name(), Ok("2025-12-01-t.md".to_string()));
    let bad = article("t", "05/01/2024", &[], &[]);
    assert_eq!(bad.get_date(), Err(ConfigError::InvalidFormat));
}

#[test]
fn initial_date_prefers_given_text() {
    let t = Date::from_ymd(2030, 3, 4).unwrap();
    assert_eq!(initial_date(Some("2024-01-05"), &t), Ok("2024-01-05".to_string()));
    assert_eq!(initial_date(None, &t), Ok("2030-03-04".to_string()));
    assert_eq!(initial_date(Some("2024-02-30"), &t), Err(ConfigError::InvalidFormat));
}

#[test]
fn title_accessors() {
    let mut a = article("old", "2024-01-05", &[], &[]);
    assert_eq!(a.title(), "old");
    a.set_title("new one".to_string());
    assert_eq!(a.title(), "new one");
    assert_eq!(a.file_name(), Ok("2024-01-05-new-one.md".to_string()));
}
