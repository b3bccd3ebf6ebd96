use rs_http::HeaderMap;

#[test]
fn a_new_map_is_empty() {
    let headers = HeaderMap::new();
    assert_eq!(headers.len(), 0);
    assert_eq!(headers.get("Host"), None);
}

#[test]
fn insert_hands_back_the_value_it_replaces() {
    let mut headers = HeaderMap::new();
    assert_eq!(headers.insert(String::from("Host"), String::from("a")), None);
    assert_eq!(headers.insert(String::from("Accept"), String::from("b")), None);
    assert_eq!(headers.insert(String::from("Host"), String::from("c")), Some(String::from("a")));
    assert_eq!(headers.len(), 2);
    assert_eq!(headers.get("Host"), Some(&String::from("c")));
    assert_eq!(headers.get("Accept"), Some(&String::from("b")));
    assert_eq!(headers.get("host"), None);
}

#[test]
fn maps_are_equal_whatever_the_order_of_entry() {
    let mut one = HeaderMap::new();
    one.insert(String::from("a"), String::from("1"));
    one.insert(String::from("b"), String::from("2"));
    let mut other = HeaderMap::new();
    other.insert(String::from("b"), String::from("2"));
    other.insert(String::from("a"), String::from("0"));
    assert_ne!(one, other);
    other.insert(String::from("a"), String::from("1"));
    assert_eq!(one, other);
    other.insert(String::from("c"), String::from("3"));
    assert_ne!(one, other);
    assert_ne!(other, one);
    assert_ne!(one, HeaderMap::new());
    assert_eq!(HeaderMap::new(), HeaderMap::new());
}

#[test]
fn maps_of_equal_size_and_other_names_differ() {
    let mut one = HeaderMap::new();
    one.insert(String::from("a"), String::from("1"));
    let mut other = HeaderMap::new();
    other.insert(String::from("b"), String::from("1"));
    assert_ne!(one, other);
}

#[test]
fn a_clone_holds_the_same_fields() {
    let mut headers = HeaderMap::new();
    headers.insert(String::from("a"), String::from("1"));
    headers.insert(String::from("b"), String::from("2"));
    let copy = headers.clone();
    assert_eq!(copy, headers);
    headers.insert(String::from("a"), String::from("3"));
    assert_eq!(copy.get("a"), Some(&String::from("1")));
    assert_ne!(copy, headers);
}

#[test]
fn names_gives_each_name_once() {
    let mut headers = HeaderMap::new();
    assert_eq!(headers.names(), Vec::<String>::new());
    headers.insert(String::from("b"), String::from("1"));
    headers.insert(String::from("a"), String::from("2"));
    headers.insert(String::from("b"), String::from("3"));
    let mut names = headers.names();
    names.sort();
    assert_eq!(names, vec![String::from("a"), String::from("b")]);
    for name in headers.names() {
        assert!(headers.get(&name).is_some());
    }
}
