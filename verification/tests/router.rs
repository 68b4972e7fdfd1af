use qz::method::Method;
use qz::router::{longest_common_prefix, Router};
use qz::status::StatusCode;

#[test]
fn lcp() {
    assert_eq!(longest_common_prefix(b"abcde", b"abchoge"), 3);
}

#[test]
fn lcp_root() {
    assert_eq!(longest_common_prefix(b"", b"abchoge"), 0);
}

#[test]
fn find() {
    let mut tree: Router<usize> = Router::new();
    let keys = vec!["/", "to", "tea", "ted", "hoge", "h", "i", "in", "inn"];
    for key in &keys {
        tree.add_route(key.as_bytes(), Method::Get, 0);
    }
    for key in keys {
        tree.find(key.as_bytes(), Method::Get).unwrap();
    }
}

#[test]
fn invalid_method() {
    let mut tree: Router<usize> = Router::new();
    tree.add_route(b"/example", Method::Get, 0);
    match tree.find(b"/example", Method::Post) {
        Ok(_) => panic!("No handler is registered for POST"),
        Err(code) => assert_eq!(StatusCode::MethodNotAllowed, code),
    }
}

#[test]
fn find_with_wildcard() {
    let mut tree: Router<usize> = Router::new();
    let paths = vec!["/", "/index.html", "/static/*"];
    for key in &paths {
        tree.add_route(key.as_bytes(), Method::Get, 0);
    }
    let queries = vec![
        "/",
        "/index.html",
        "/static/index.html",
        "/static/style.css",
        "/static/index.js",
    ];
    for query in &queries {
        tree.find(query.as_bytes(), Method::Get).unwrap();
    }
}

#[test]
fn dont_match_substr() {
    let mut tree: Router<usize> = Router::new();
    tree.add_route(b"/hoge", Method::Get, 0);
    assert!(tree.find(b"/ho", Method::Get).is_err())
}

#[test]
fn dont_match_substr2() {
    let mut tree: Router<usize> = Router::new();
    tree.add_route(b"/hoge", Method::Get, 0);
    tree.add_route(b"/ho", Method::Post, 0);
    assert!(tree.find(b"/ho", Method::Get).is_err())
}

#[test]
fn match_child_wildcard_defferent_method() {
    let mut tree: Router<usize> = Router::new();
    tree.add_route(b"/hoge", Method::Get, 0);
    tree.add_route(b"/hoge*", Method::Post, 1);
    assert!(tree.find(b"/hoge", Method::Post).is_ok())
}

#[test]
fn longest_match_wildcard() {
    let mut tree: Router<&'static str> = Router::new();
    tree.add_route(b"/", Method::Get, "root");
    tree.add_route(b"/*", Method::Get, "wildcard");
    assert_eq!(Ok(&"root"), tree.find(b"/", Method::Get));
    assert_eq!(Ok(&"wildcard"), tree.find(b"/hoge", Method::Get));
}

#[test]
fn different_method_to_a_uri() {
    let mut tree: Router<&'static str> = Router::new();
    tree.add_route(b"/", Method::Get, "get");
    tree.add_route(b"/", Method::Post, "post");
    assert_eq!(Ok(&"get"), tree.find(b"/", Method::Get));
    assert_eq!(Ok(&"post"), tree.find(b"/", Method::Post));
}

#[test]
fn wildcard_greediness() {
    let mut tree: Router<usize> = Router::new();
    tree.add_route(b"/static/*", Method::Get, 7);
    assert_eq!(Ok(&7), tree.find(b"/static/a", Method::Get));
    assert_eq!(Ok(&7), tree.find(b"/static/a/b", Method::Get));
    assert_eq!(Ok(&7), tree.find(b"/static/anything", Method::Get));
    assert!(tree.find(b"/staticX", Method::Get).is_err());
}

#[test]
fn last_registration_wins() {
    let mut tree: Router<usize> = Router::new();
    tree.add_route(b"/a", Method::Get, 1);
    tree.add_route(b"/a", Method::Get, 2);
    assert_eq!(Ok(&2), tree.find(b"/a", Method::Get));
}

#[test]
fn find_not_registered() {
    let mut tree: Router<usize> = Router::new();
    tree.add_route(b"/a", Method::Get, 1);
    assert_eq!(Err(StatusCode::NotFound), tree.find(b"/b", Method::Get));
    assert_eq!(Err(StatusCode::NotFound), tree.find(b"", Method::Get));
}
