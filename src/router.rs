use vstd::prelude::*;

use crate::http::Method;
use crate::keyed::{lemma_append, lemma_last_match, lemma_no_match, lemma_replace, map_of};

verus! {

pub open spec fn paths_view<T>(s: Seq<(String, T)>) -> Seq<(Seq<char>, T)> {
    s.map_values(|e: (String, T)| (e.0@, e.1))
}

/// Values by exact path; inserting a path again replaces its value.
pub struct PathTree<T> {
    entries: Vec<(String, T)>,
}

impl<T> View for PathTree<T> {
    type V = Map<Seq<char>, T>;

    closed spec fn view(&self) -> Map<Seq<char>, T> {
        map_of(paths_view(self.entries@))
    }
}

impl<T> PathTree<T> {
    pub fn new() -> (r: Self)
        ensures
            r@ == Map::<Seq<char>, T>::empty(),
    {
        let r = PathTree { entries: Vec::new() };
        assert(paths_view(r.entries@).len() == 0);
        r
    }

    /// Position of the last entry for `path`, if any.
    fn position(&self, path: &String) -> (r: Option<usize>)
        ensures
            ({
                let s = paths_view(self.entries@);
                match r {
                    Some(i) => i < s.len() && s[i as int].0 == path@ && forall|j: int|
                        i < j < s.len() ==> (#[trigger] s[j]).0 != path@,
                    None => forall|j: int| 0 <= j < s.len() ==> (#[trigger] s[j]).0 != path@,
                }
            }),
    {
        let ghost s = paths_view(self.entries@);
        let mut i: usize = self.entries.len();
        while i > 0
            invariant
                i <= self.entries@.len(),
                s == paths_view(self.entries@),
                forall|j: int| i <= j < s.len() ==> (#[trigger] s[j]).0 != path@,
            decreases i,
        {
            if self.entries[i - 1].0 == *path {
                return Some(i - 1);
            }
            i = i - 1;
        }
        None
    }

    /// Stores `value` under `path`, replacing an earlier value.
    pub fn insert(&mut self, path: String, value: T)
        ensures
            final(self)@ == old(self)@.insert(path@, value),
    {
        let ghost s = paths_view(self.entries@);
        let ghost k = path@;
        match self.position(&path) {
            Some(i) => {
                proof {
                    lemma_replace(s, i as int, k, value);
                }
                self.entries.remove(i);
                assert(paths_view(self.entries@) =~= s.remove(i as int));
                self.entries.push((path, value));
                assert(paths_view(self.entries@) =~= s.remove(i as int).push((k, value)));
            },
            None => {
                proof {
                    lemma_append(s, k, value);
                }
                self.entries.push((path, value));
                assert(paths_view(self.entries@) =~= s.push((k, value)));
            },
        }
    }

    /// The value stored under exactly `path`, if any.
    pub fn find(&self, path: &str) -> (r: Option<&T>)
        ensures
            match r {
                Some(v) => self@.contains_key(path@) && *v == self@[path@],
                None => !self@.contains_key(path@),
            },
    {
        let p = path.to_owned();
        match self.position(&p) {
            Some(i) => {
                proof {
                    lemma_last_match(paths_view(self.entries@), path@, i as int);
                }
                Some(&self.entries[i].1)
            },
            None => {
                proof {
                    lemma_no_match(paths_view(self.entries@), path@);
                }
                None
            },
        }
    }
}

pub open spec fn trees_view<T>(s: Seq<(Method, PathTree<T>)>) -> Seq<(Method, Map<Seq<char>, T>)> {
    s.map_values(|e: (Method, PathTree<T>)| (e.0, e.1@))
}

/// The paths of one method after `path` is set to `value` there; a method seen
/// for the first time starts from no paths.
pub open spec fn with_route<T>(
    routes: Map<Method, Map<Seq<char>, T>>,
    method: Method,
    path: Seq<char>,
    value: T,
) -> Map<Method, Map<Seq<char>, T>> {
    let paths = if routes.contains_key(method) {
        routes[method]
    } else {
        Map::empty()
    };
    routes.insert(method, paths.insert(path, value))
}

/// Whether `routes` holds a value for exactly (`method`, `path`).
pub open spec fn has_route<T>(
    routes: Map<Method, Map<Seq<char>, T>>,
    method: Method,
    path: Seq<char>,
) -> bool {
    routes.contains_key(method) && routes[method].contains_key(path)
}

/// One path tree per method that has been used.
pub struct RouteTable<T> {
    trees: Vec<(Method, PathTree<T>)>,
}

impl<T> View for RouteTable<T> {
    type V = Map<Method, Map<Seq<char>, T>>;

    closed spec fn view(&self) -> Map<Method, Map<Seq<char>, T>> {
        map_of(trees_view(self.trees@))
    }
}

impl<T> RouteTable<T> {
    pub fn new() -> (r: Self)
        ensures
            r@ == Map::<Method, Map<Seq<char>, T>>::empty(),
    {
        let r = RouteTable { trees: Vec::new() };
        assert(trees_view(r.trees@).len() == 0);
        r
    }

    /// Position of the last tree for `method`, if any.
    fn position(&self, method: Method) -> (r: Option<usize>)
        ensures
            ({
                let s = trees_view(self.trees@);
                match r {
                    Some(i) => i < s.len() && s[i as int].0 == method && forall|j: int|
                        i < j < s.len() ==> (#[trigger] s[j]).0 != method,
                    None => forall|j: int| 0 <= j < s.len() ==> (#[trigger] s[j]).0 != method,
                }
            }),
    {
        let ghost s = trees_view(self.trees@);
        let mut i: usize = self.trees.len();
        while i > 0
            invariant
                i <= self.trees@.len(),
                s == trees_view(self.trees@),
                forall|j: int| i <= j < s.len() ==> (#[trigger] s[j]).0 != method,
            decreases i,
        {
            if self.trees[i - 1].0 == method {
                return Some(i - 1);
            }
            i = i - 1;
        }
        None
    }

    /// Sets (`method`, `path`) to `value`, creating the method's tree on first use.
    pub fn insert(&mut self, method: Method, path: String, value: T)
        ensures
            final(self)@ == with_route(old(self)@, method, path@, value),
    {
        let ghost s = trees_view(self.trees@);
        let ghost p = path@;
        match self.position(method) {
            Some(i) => {
                proof {
                    lemma_last_match(s, method, i as int);
                }
                let (_, mut tree) = self.trees.remove(i);
                assert(trees_view(self.trees@) =~= s.remove(i as int));
                tree.insert(path, value);
                let ghost t = tree@;
                proof {
                    lemma_replace(s, i as int, method, t);
                }
                self.trees.push((method, tree));
                assert(trees_view(self.trees@) =~= s.remove(i as int).push((method, t)));
            },
            None => {
                proof {
                    lemma_no_match(s, method);
                }
                let mut tree = PathTree::new();
                tree.insert(path, value);
                let ghost t = tree@;
                proof {
                    lemma_append(s, method, t);
                }
                self.trees.push((method, tree));
                assert(trees_view(self.trees@) =~= s.push((method, t)));
            },
        }
    }

    /// The value for exactly (`method`, `path`), if any.
    pub fn find(&self, method: Method, path: &str) -> (r: Option<&T>)
        ensures
            match r {
                Some(v) => has_route(self@, method, path@) && *v == self@[method][path@],
                None => !has_route(self@, method, path@),
            },
    {
        match self.position(method) {
            Some(i) => {
                proof {
                    lemma_last_match(trees_view(self.trees@), method, i as int);
                }
                self.trees[i].1.find(path)
            },
            None => {
                proof {
                    lemma_no_match(trees_view(self.trees@), method);
                }
                None
            },
        }
    }
}

} // verus!
