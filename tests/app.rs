use webcore::app::{not_found, App, Route, Service};
use webcore::http::{Body, Method, StatusCode, Version};
use webcore::response::HttpResponse;

fn route(method: Method, path: &str, service: u32) -> Route<u32> {
    Route { method, path: path.to_string(), service }
}

#[test]
fn registered_route_is_found_after_build() {
    let app: App<u32, (), ()> = App::new().service(route(Method::Get, "/users", 1));
    let built = app.build();
    assert_eq!(built.route(Method::Get, "/users"), Some(&1));
    assert_eq!(built.route(Method::Post, "/users"), None);
    assert_eq!(built.route(Method::Get, "/user"), None);
}

#[test]
fn later_route_for_same_pair_wins() {
    let app: App<u32, (), ()> = App::new()
        .service(route(Method::Get, "/", 1))
        .service(route(Method::Post, "/", 2))
        .service(route(Method::Get, "/", 3));
    let built = app.build();
    assert_eq!(built.route(Method::Get, "/"), Some(&3));
    assert_eq!(built.route(Method::Post, "/"), Some(&2));
    assert_eq!(built.route(Method::Delete, "/"), None);
}

#[test]
fn empty_builder_finds_nothing_and_falls_back_to_not_found() {
    let built = App::<u32, (), ()>::new().build();
    for m in [Method::Get, Method::Head, Method::Post, Method::Put, Method::Delete, Method::Patch] {
        assert_eq!(built.route(m, "/"), None);
        assert_eq!(built.route(m, ""), None);
    }
    assert!(matches!(built.default_service(), Service::NotFound));
    let r = not_found();
    assert_eq!(r.status(), StatusCode(404));
    assert_eq!(r.version(), Version::Http10);
    assert_eq!(
        r.encode(false).unwrap(),
        b"HTTP/1.0 404 Not Found\r\nContent-Length: 0\r\n".to_vec()
    );
}

#[test]
fn default_service_replaces_fallback() {
    let built = App::<u32, (), ()>::new().default_service(route(Method::Get, "/", 9)).build();
    assert!(matches!(built.default_service(), Service::Handler(9)));
}

#[test]
fn middleware_keeps_declaration_order() {
    let built = App::<u32, &str, ()>::new().wrap("outer").wrap("inner").build();
    assert_eq!(built.middleware(), &vec!["outer", "inner"]);
}

#[test]
fn shared_state_is_visible_after_build() {
    let built = App::<u32, (), String>::new()
        .data(1, "db".to_string())
        .data(2, "cfg".to_string())
        .data(1, "db2".to_string())
        .build();
    assert_eq!(built.data().get(1), Some(&"db2".to_string()));
    assert_eq!(built.data().get(2), Some(&"cfg".to_string()));
    assert_eq!(built.data().get(3), None);
}

#[test]
fn cloned_app_shares_routes() {
    let built = App::<u32, (), ()>::new().service(route(Method::Put, "/x", 4)).build();
    let other = built.clone();
    assert_eq!(other.route(Method::Put, "/x"), Some(&4));
}

#[test]
fn handler_response_is_serialized() {
    let r = HttpResponse::ok().body(Body::Bytes(b"ok".to_vec()));
    assert_eq!(r.encode(false).unwrap(), b"HTTP/1.0 200 OK\r\nContent-Length: 2\r\n\r\nok".to_vec());
}
