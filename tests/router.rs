use webcore::http::Method;
use webcore::router::{PathTree, RouteTable};

#[test]
fn path_tree_exact_match_and_overwrite() {
    let mut t: PathTree<u8> = PathTree::new();
    assert_eq!(t.find("/a"), None);
    t.insert("/a".to_string(), 1);
    t.insert("/b".to_string(), 2);
    t.insert("/a".to_string(), 3);
    assert_eq!(t.find("/a"), Some(&3));
    assert_eq!(t.find("/b"), Some(&2));
    assert_eq!(t.find("/a/"), None);
}

#[test]
fn route_table_keeps_methods_apart() {
    let mut r: RouteTable<u8> = RouteTable::new();
    r.insert(Method::Get, "/".to_string(), 1);
    r.insert(Method::Post, "/".to_string(), 2);
    r.insert(Method::Get, "/x".to_string(), 3);
    r.insert(Method::Get, "/".to_string(), 4);
    assert_eq!(r.find(Method::Get, "/"), Some(&4));
    assert_eq!(r.find(Method::Post, "/"), Some(&2));
    assert_eq!(r.find(Method::Get, "/x"), Some(&3));
    assert_eq!(r.find(Method::Post, "/x"), None);
    assert_eq!(r.find(Method::Options, "/"), None);
}
