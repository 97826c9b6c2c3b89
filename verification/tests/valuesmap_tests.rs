use mi::valuesmap::ValuesMap;

#[test]
fn add_appends_and_set_replaces() {
    let mut m = ValuesMap::new();
    m.add("k", "v1");
    m.add("k", "v2");
    assert_eq!(m.get_all("k"), Some(&vec!["v1".to_string(), "v2".to_string()]));
    assert_eq!(m.get("k"), Some("v2"));
    m.set("k", "v3");
    assert_eq!(m.get_all("k"), Some(&vec!["v3".to_string()]));
    assert_eq!(m.get("k"), Some("v3"));
}

#[test]
fn case_handling_collides_keys() {
    let mut m = ValuesMap::new();
    m.set_case_handling(true);
    m.add("content-type", "text/html");
    assert_eq!(m.get("Content-Type"), Some("text/html"));
    assert_eq!(m.get("CONTENT-TYPE"), None);
    assert_eq!(m.get("content-type"), Some("text/html"));
}

#[test]
fn header_case_forms() {
    let m = ValuesMap::new();
    assert_eq!(m.header_case("content-type"), "Content-Type");
    assert_eq!(m.header_case("Content-Type"), "Content-Type");
    assert_eq!(m.header_case("host"), "Host");
    assert_eq!(m.header_case("x-forwarded-for"), "X-Forwarded-For");
    // After a dash that directly follows an upper-cased character, the next
    // character is left as it is.
    assert_eq!(m.header_case("a--b"), "A--b");
    assert_eq!(m.header_case(""), "");
}

#[test]
fn header_case_is_idempotent_on_output() {
    let m = ValuesMap::new();
    let once = m.header_case("x-request-id");
    let twice = m.header_case(&once);
    assert_eq!(once, twice);
}

#[test]
fn unknown_keys_return_empty_results() {
    let m = ValuesMap::new();
    assert_eq!(m.get("missing"), None);
    assert_eq!(m.get_all("missing"), None);
    assert!(m.is_empty());
}

#[test]
fn all_returns_entries_in_insertion_order() {
    let mut m = ValuesMap::new();
    m.add("b", "1");
    m.add("a", "2");
    m.add("b", "3");
    let entries = m.all();
    assert_eq!(entries.len(), 2);
    assert_eq!(entries[0].0, "b");
    assert_eq!(entries[0].1, vec!["1".to_string(), "3".to_string()]);
    assert_eq!(entries[1].0, "a");
    assert!(!m.is_empty());
}

#[test]
fn headers_behave_like_valuesmap() {
    let mut h = mi::headers::Headers::new();
    assert!(!h.case_handling());
    h.add("k", "v1");
    h.add("k", "v2");
    assert_eq!(h.get("k"), Some("v2"));
    h.set("k", "v3");
    assert_eq!(h.get("k"), Some("v3"));
    h.set_case_handling(true);
    h.add("x-y", "1");
    assert_eq!(h.get("X-Y"), Some("1"));
    assert_eq!(h.header_case("x-y"), "X-Y");
}
