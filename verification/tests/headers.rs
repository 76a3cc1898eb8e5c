use requestr::headers::Headers;

fn text(s: &str) -> String {
    s.to_string()
}

#[test]
fn new_table_is_empty() {
    let headers = Headers::new();
    assert!(headers.entries().is_empty());
    assert_eq!(headers.get(&text("Accept")), None);
}

#[test]
fn set_binds_a_name() {
    let headers = Headers::new().set(text("Accept"), Some(text("application/json")));
    assert_eq!(headers.get(&text("Accept")), Some(&text("application/json")));
    assert_eq!(headers.entries().len(), 1);
}

#[test]
fn last_write_wins() {
    let headers = Headers::new()
        .set(text("Accept"), Some(text("text/plain")))
        .set(text("Authorization"), Some(text("token foobar")))
        .set(text("Accept"), Some(text("application/json")));
    assert_eq!(headers.get(&text("Accept")), Some(&text("application/json")));
    assert_eq!(headers.get(&text("Authorization")), Some(&text("token foobar")));
    assert_eq!(headers.entries().len(), 2);
}

#[test]
fn none_removes_a_name() {
    let headers = Headers::new()
        .set(text("Accept"), Some(text("text/plain")))
        .set(text("Authorization"), Some(text("token foobar")))
        .set(text("Accept"), None);
    assert_eq!(headers.get(&text("Accept")), None);
    assert_eq!(headers.get(&text("Authorization")), Some(&text("token foobar")));
    assert_eq!(headers.entries().len(), 1);
}

#[test]
fn removing_an_unbound_name_changes_nothing() {
    let headers = Headers::new()
        .set(text("Accept"), Some(text("text/plain")))
        .set(text("Range"), None);
    assert_eq!(headers.entries().len(), 1);
    assert_eq!(headers.get(&text("Accept")), Some(&text("text/plain")));
    assert_eq!(headers.get(&text("Range")), None);
}

#[test]
fn a_removed_name_can_be_bound_again() {
    let headers = Headers::new()
        .set(text("Accept"), Some(text("text/plain")))
        .set(text("Accept"), None)
        .set(text("Accept"), Some(text("image/png")));
    assert_eq!(headers.get(&text("Accept")), Some(&text("image/png")));
    assert_eq!(headers.entries().len(), 1);
}

#[test]
fn names_differ_by_case() {
    let headers = Headers::new()
        .set(text("Accept"), Some(text("a")))
        .set(text("accept"), Some(text("b")));
    assert_eq!(headers.get(&text("Accept")), Some(&text("a")));
    assert_eq!(headers.get(&text("accept")), Some(&text("b")));
    assert_eq!(headers.entries().len(), 2);
}

#[test]
fn entries_hold_each_name_once() {
    let mut headers = Headers::new();
    for round in 0..3 {
        for name in ["a", "b", "c", "d"] {
            headers = headers.set(text(name), Some(format!("{}{}", name, round)));
        }
    }
    headers = headers.set(text("b"), None);
    let entries = headers.entries();
    assert_eq!(entries.len(), 3);
    for (i, (name, value)) in entries.iter().enumerate() {
        assert_eq!(value, &format!("{}2", name));
        for (other, _) in entries.iter().skip(i + 1) {
            assert_ne!(name, other);
        }
    }
}
