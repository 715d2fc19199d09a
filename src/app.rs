use std::sync::Arc;
use vstd::prelude::*;

use crate::extensions::{Extensions, TypeKey};
use crate::http::{BodyView, Method, StatusCode, Version};
use crate::response::{HttpResponse, ResponseView};
use crate::router::{has_route, with_route, RouteTable};

verus! {

/// A handler registered for one method and path.
pub struct Route<H> {
    pub method: Method,
    pub path: String,
    pub service: H,
}

/// The handler used when no route matches.
pub enum Service<H> {
    /// The built-in fallback, which answers with `not_found`.
    NotFound,
    /// A handler given by the application.
    Handler(H),
}

/// The built-in fallback's answer: status 404 with an empty body.
pub fn not_found() -> (r: HttpResponse)
    ensures
        r@ == (ResponseView {
            version: Version::Http10,
            status: 404,
            headers: Seq::empty(),
            body: BodyView::Empty,
        }),
{
    HttpResponse::new(StatusCode(404)).finish()
}

/// The content of an application, while building and once frozen.
pub ghost struct AppView<H, M, V> {
    pub routes: Map<Method, Map<Seq<char>, H>>,
    pub data: Map<TypeKey, V>,
    pub middleware: Seq<M>,
    pub default_service: Service<H>,
}

/// What a new builder holds: no routes, no state, no middleware, the built-in fallback.
pub open spec fn empty_app<H, M, V>() -> AppView<H, M, V> {
    AppView {
        routes: Map::empty(),
        data: Map::empty(),
        middleware: Seq::empty(),
        default_service: Service::NotFound,
    }
}

/// The frozen application: shared, read-only routes, state, middleware and fallback.
pub struct BuiltApp<H, M, V> {
    tree: Arc<RouteTable<H>>,
    data: Arc<Extensions<V>>,
    middleware: Arc<Vec<M>>,
    default_service: Arc<Service<H>>,
}

impl<H, M, V> View for BuiltApp<H, M, V> {
    type V = AppView<H, M, V>;

    closed spec fn view(&self) -> AppView<H, M, V> {
        AppView {
            routes: (*self.tree)@,
            data: (*self.data)@,
            middleware: (*self.middleware)@,
            default_service: *self.default_service,
        }
    }
}

/// The application while it is configured: owned by one party and mutable.
pub struct App<H, M, V> {
    tree: RouteTable<H>,
    data: Extensions<V>,
    middleware: Vec<M>,
    default_service: Service<H>,
}

impl<H, M, V> View for App<H, M, V> {
    type V = AppView<H, M, V>;

    closed spec fn view(&self) -> AppView<H, M, V> {
        AppView {
            routes: self.tree@,
            data: self.data@,
            middleware: self.middleware@,
            default_service: self.default_service,
        }
    }
}

impl<H, M, V> App<H, M, V> {
    pub fn new() -> (r: Self)
        ensures
            r@ == empty_app::<H, M, V>(),
    {
        Self::default()
    }

    /// Adds shared state under its type's key, replacing an earlier value of that type.
    pub fn data(self, key: TypeKey, value: V) -> (r: Self)
        ensures
            r@ == (AppView { data: self@.data.insert(key, value), ..self@ }),
    {
        let mut a = self;
        a.data.insert(key, value);
        a
    }

    /// Appends a middleware; the first one added is the outermost.
    pub fn wrap(self, middleware: M) -> (r: Self)
        ensures
            r@ == (AppView { middleware: self@.middleware.push(middleware), ..self@ }),
    {
        let mut a = self;
        a.middleware.push(middleware);
        a
    }

    /// Registers a route; a later route for the same method and path wins.
    pub fn service(self, route: Route<H>) -> (r: Self)
        ensures
            r@ == (AppView {
                routes: with_route(self@.routes, route.method, route.path@, route.service),
                ..self@
            }),
    {
        let mut a = self;
        a.tree.insert(route.method, route.path, route.service);
        a
    }

    /// Replaces the fallback with the handler of `service`.
    pub fn default_service(self, service: Route<H>) -> (r: Self)
        ensures
            r@ == (AppView { default_service: Service::Handler(service.service), ..self@ }),
    {
        let mut a = self;
        a.default_service = Service::Handler(service.service);
        a
    }

    /// Freezes the builder into a shareable application with the same content.
    pub fn build(self) -> (r: BuiltApp<H, M, V>)
        ensures
            r@ == self@,
    {
        BuiltApp {
            tree: Arc::new(self.tree),
            data: Arc::new(self.data),
            middleware: Arc::new(self.middleware),
            default_service: Arc::new(self.default_service),
        }
    }
}

impl<H, M, V> Default for App<H, M, V> {
    fn default() -> (r: Self)
        ensures
            r@ == empty_app::<H, M, V>(),
    {
        App {
            tree: RouteTable::new(),
            data: Extensions::new(),
            middleware: Vec::new(),
            default_service: Service::NotFound,
        }
    }
}

impl<H, M, V> BuiltApp<H, M, V> {
    /// The handler for exactly (`method`, `path`); `None` sends the request to the fallback.
    pub fn route(&self, method: Method, path: &str) -> (r: Option<&H>)
        ensures
            match r {
                Some(h) => has_route(self@.routes, method, path@) && *h == self@.routes[method][path@],
                None => !has_route(self@.routes, method, path@),
            },
    {
        self.tree.find(method, path)
    }

    pub fn data(&self) -> (r: &Extensions<V>)
        ensures
            r@ == self@.data,
    {
        &self.data
    }

    pub fn middleware(&self) -> (r: &Vec<M>)
        ensures
            r@ == self@.middleware,
    {
        &self.middleware
    }

    pub fn default_service(&self) -> (r: &Service<H>)
        ensures
            *r == self@.default_service,
    {
        &self.default_service
    }
}

impl<H, M, V> Clone for BuiltApp<H, M, V> {
    /// Another handle on the same frozen content.
    fn clone(&self) -> (r: Self)
        ensures
            r@ == self@,
    {
        BuiltApp {
            tree: Arc::clone(&self.tree),
            data: Arc::clone(&self.data),
            middleware: Arc::clone(&self.middleware),
            default_service: Arc::clone(&self.default_service),
        }
    }
}

/// Registering a handler for (`method`, `path`) makes that exact pair find it, and
/// leaves the same path under any other method as it was: absent, where nothing
/// was registered there before. Freezing keeps the routes as they are.
pub proof fn lemma_route_lookup<H, M, V>(
    a: AppView<H, M, V>,
    method: Method,
    path: Seq<char>,
    service: H,
    other: Method,
)
    ensures
        ({
            let r = AppView { routes: with_route(a.routes, method, path, service), ..a };
            &&& has_route(r.routes, method, path)
            &&& r.routes[method][path] == service
            &&& other != method ==> has_route(r.routes, other, path) == has_route(
                a.routes,
                other,
                path,
            )
            &&& other != method ==> r.routes[other] == a.routes[other]
            &&& other != method && !has_route(a.routes, other, path) ==> !has_route(
                r.routes,
                other,
                path,
            )
        }),
{
}

/// A builder that was never configured finds no route for any method and path, and
/// falls back to the built-in not-found handler.
pub proof fn lemma_empty_app_lookups<H, M, V>(method: Method, path: Seq<char>)
    ensures
        !has_route(empty_app::<H, M, V>().routes, method, path),
        empty_app::<H, M, V>().default_service is NotFound,
{
}

} // verus!
