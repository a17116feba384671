use feature_showcase::tally::Tally;
use feature_showcase::text::{compare_text, push_int, push_nat, Cmp};
use feature_showcase::ShowcaseError;

#[test]
fn decimal_rendering() {
    let mut s = String::new();
    push_nat(&mut s, 0);
    s.push(' ');
    push_nat(&mut s, 1234567890);
    s.push(' ');
    push_int(&mut s, -7);
    s.push(' ');
    push_int(&mut s, i64::MIN);
    s.push(' ');
    push_nat(&mut s, u64::MAX);
    assert_eq!(s, "0 1234567890 -7 -9223372036854775808 18446744073709551615");
}

#[test]
fn compare_text_is_str_order() {
    let words = ["", "a", "ab", "b", "B", "é", "z", "aa"];
    for a in words {
        for b in words {
            let expected = match a.cmp(b) {
                std::cmp::Ordering::Less => Cmp::Less,
                std::cmp::Ordering::Equal => Cmp::Equal,
                std::cmp::Ordering::Greater => Cmp::Greater,
            };
            assert_eq!(compare_text(a, b), expected);
        }
    }
}

#[test]
fn tally_counts_in_key_order() {
    let mut t = Tally::new();
    for k in ["pear", "apple", "pear", "fig", "pear"] {
        t.increment(k.to_string());
    }
    assert_eq!(t.get("pear"), Some(&3));
    assert_eq!(t.get("apple"), Some(&1));
    assert_eq!(t.get("kiwi"), None);
    let keys: Vec<&str> = t.entries().iter().map(|e| e.0.as_str()).collect();
    assert_eq!(keys, vec!["apple", "fig", "pear"]);
}

#[test]
fn error_messages() {
    assert_eq!(ShowcaseError::EmptyPlan.message(), "the plan must contain at least one work item");
    assert_eq!(ShowcaseError::DuplicateItemId("x".to_string()).message(), "duplicate work item id: x");
    assert_eq!(
        ShowcaseError::InvalidDependency { item_id: "a".to_string(), missing_id: "b".to_string() }.message(),
        "work item 'a' depends on missing item 'b'"
    );
    assert_eq!(ShowcaseError::WorkerPanic.message(), "a worker thread panicked while scoring items");
    let io = ShowcaseError::Io(std::io::Error::new(std::io::ErrorKind::Other, "boom"));
    assert_eq!(io.message(), "io error: boom");
    let json = ShowcaseError::Json(serde_json::from_str::<u32>("x").unwrap_err());
    assert!(json.message().starts_with("json error: "));
}

#[test]
fn errors_convert_from_io_and_json() {
    let io: ShowcaseError = std::io::Error::new(std::io::ErrorKind::NotFound, "gone").into();
    assert!(matches!(io, ShowcaseError::Io(_)));
    assert_eq!(io.message(), "io error: gone");
    let parse = serde_json::from_str::<u32>("[").unwrap_err();
    let detail = parse.to_string();
    let json: ShowcaseError = parse.into();
    assert!(matches!(json, ShowcaseError::Json(_)));
    assert_eq!(json.message(), format!("json error: {detail}"));
}
