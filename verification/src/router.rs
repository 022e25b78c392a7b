//! The route table: which handler answers which path and request type.

use vstd::prelude::*;

verus! {

/// The type of a request, as its first word says.
#[derive(Clone, Copy, PartialEq, Eq, Structural, Debug)]
pub enum RequestType {
    Get,
    Post,
    Put,
    Delete,
}

/// A request as the parser hands it over.
pub struct Request {
    pub path: String,
    pub rtype: RequestType,
}

/// A handler together with the path and the request type that it answers.
pub struct Route<H> {
    pub path: String,
    pub rtype: RequestType,
    pub handler: H,
}

impl<H> Route<H> {
    /// What the route is registered under.
    pub open spec fn key(self) -> (Seq<char>, RequestType) {
        (self.path@, self.rtype)
    }
}

/// The route table as a mathematical value.
pub struct RouterView<H> {
    /// The handler of each registered path and request type.
    pub table: Map<(Seq<char>, RequestType), H>,
    /// The handler for everything else, if one was set.
    pub fallback: Option<H>,
}

impl<H> RouterView<H> {
    /// The handler that answers `path` and `rtype`: the one registered for
    /// exactly these, else the default handler, else none.
    pub open spec fn find(self, path: Seq<char>, rtype: RequestType) -> Option<H> {
        if self.table.contains_key((path, rtype)) {
            Some(self.table[(path, rtype)])
        } else {
            self.fallback
        }
    }
}

/// Whether the entry `i` of `routes` is registered under `k`.
pub open spec fn holds<H>(routes: Seq<Route<H>>, i: int, k: (Seq<char>, RequestType)) -> bool {
    0 <= i < routes.len() && routes[i].key() == k
}

/// Whether no two entries of `routes` share a path and a request type.
pub open spec fn distinct<H>(routes: Seq<Route<H>>) -> bool {
    forall|i: int, j: int|
        0 <= i < routes.len() && 0 <= j < routes.len() && i != j ==> !#[trigger] holds(
            routes,
            i,
            routes[j].key(),
        )
}

/// The table that a list of routes stands for.
pub open spec fn table_of<H>(routes: Seq<Route<H>>) -> Map<(Seq<char>, RequestType), H> {
    Map::new(
        |k: (Seq<char>, RequestType)| exists|i: int| holds(routes, i, k),
        |k: (Seq<char>, RequestType)| routes[choose|i: int| holds(routes, i, k)].handler,
    )
}

/// In a list without doubles, the table maps each entry's key to that entry's
/// handler.
proof fn lemma_table_entry<H>(routes: Seq<Route<H>>, i: int)
    requires
        distinct(routes),
        0 <= i < routes.len(),
    ensures
        table_of(routes).contains_key(routes[i].key()),
        table_of(routes)[routes[i].key()] == routes[i].handler,
{
    let k = routes[i].key();
    assert(holds(routes, i, k));
    let j = choose|j: int| holds(routes, j, k);
    if j != i {
        assert(!holds(routes, j, routes[i].key()));
    }
}

/// Replacing an entry by one with the same key, or adding one with a new key,
/// keeps the list without doubles and maps the key to the new handler.
proof fn lemma_table_insert<H>(before: Seq<Route<H>>, after: Seq<Route<H>>, at: int, route: Route<H>)
    requires
        distinct(before),
        0 <= at <= before.len(),
        at < before.len() ==> after == before.update(at, route) && before[at].key() == route.key(),
        at == before.len() ==> after == before.push(route) && forall|i: int|
            !holds(before, i, route.key()),
    ensures
        distinct(after),
        table_of(after) == table_of(before).insert(route.key(), route.handler),
{
    assert forall|i: int| 0 <= i < before.len() && i != at implies #[trigger] after[i]
        == before[i] by {}
    assert(after[at] == route);
    assert forall|i: int, j: int|
        0 <= i < after.len() && 0 <= j < after.len() && i != j implies !#[trigger] holds(
        after,
        i,
        after[j].key(),
    ) by {
        if i != at && j != at {
            assert(!holds(before, i, before[j].key()));
        } else if j == at && at < before.len() {
            assert(!holds(before, i, before[at].key()));
        } else if i == at && at < before.len() {
            assert(!holds(before, at, before[j].key()));
        } else if j == at {
            assert(!holds(before, i, route.key()));
        } else {
            assert(!holds(before, j, route.key()));
        }
    }
    let want = table_of(before).insert(route.key(), route.handler);
    assert forall|k: (Seq<char>, RequestType)| #[trigger]
        table_of(after).dom().contains(k) implies want.dom().contains(k) && want[k] == table_of(
        after,
    )[k] by {
        let j = choose|j: int| holds(after, j, k);
        lemma_table_entry(after, j);
        if j != at {
            lemma_table_entry(before, j);
        }
    }
    assert forall|k: (Seq<char>, RequestType)| #[trigger]
        want.dom().contains(k) implies table_of(after).dom().contains(k) by {
        if k == route.key() {
            assert(holds(after, at, k));
        } else {
            let j = choose|j: int| holds(before, j, k);
            assert(holds(after, j, k));
        }
    }
    assert(table_of(after) =~= want);
}

/// The route table. A handler is a plain value that can be copied, such as a
/// function pointer.
pub struct Router<H> {
    routes: Vec<Route<H>>,
    fallback: Option<H>,
}

impl<H: Copy> View for Router<H> {
    type V = RouterView<H>;

    closed spec fn view(&self) -> RouterView<H> {
        RouterView { table: table_of(self.routes@), fallback: self.fallback }
    }
}

impl<H: Copy> Router<H> {
    /// Whether the table is in order: no two entries share a path and a
    /// request type.
    pub closed spec fn wf(&self) -> bool {
        distinct(self.routes@)
    }

    /// An empty table without a default handler.
    pub fn new() -> (router: Self)
        ensures
            router.wf(),
            router@.table == Map::<(Seq<char>, RequestType), H>::empty(),
            router@.fallback == None::<H>,
    {
        let router = Router { routes: Vec::new(), fallback: None };
        assert(router@.table =~= Map::<(Seq<char>, RequestType), H>::empty());
        router
    }

    /// Where the entry for `path` and `rtype` stands, if there is one.
    fn position(&self, path: &String, rtype: RequestType) -> (at: Option<usize>)
        ensures
            match at {
                Some(i) => holds(self.routes@, i as int, (path@, rtype)),
                None => forall|i: int| !holds(self.routes@, i, (path@, rtype)),
            },
    {
        let mut i: usize = 0;
        while i < self.routes.len()
            invariant
                i <= self.routes@.len(),
                forall|j: int| 0 <= j < i ==> !holds(self.routes@, j, (path@, rtype)),
            decreases self.routes@.len() - i,
        {
            if self.routes[i].rtype == rtype && self.routes[i].path == *path {
                return Some(i);
            }
            i += 1;
        }
        None
    }

    /// Registers `route`. A route registered before under the same path and
    /// request type gives way to the new one.
    pub fn add_route(&mut self, route: Route<H>)
        requires
            old(self).wf(),
        ensures
            final(self).wf(),
            final(self)@.table == old(self)@.table.insert(route.key(), route.handler),
            final(self)@.fallback == old(self)@.fallback,
    {
        let ghost before = self.routes@;
        match self.position(&route.path, route.rtype) {
            Some(i) => {
                self.routes.set(i, route);
                proof {
                    lemma_table_insert(before, self.routes@, i as int, route);
                }
            },
            None => {
                self.routes.push(route);
                proof {
                    lemma_table_insert(before, self.routes@, before.len() as int, route);
                }
            },
        }
    }

    /// Sets the handler for every request that no route answers. Of `route`
    /// only the handler counts. An earlier default handler gives way.
    pub fn add_default_handler(&mut self, route: Route<H>)
        requires
            old(self).wf(),
        ensures
            final(self).wf(),
            final(self)@.table == old(self)@.table,
            final(self)@.fallback == Some(route.handler),
    {
        self.fallback = Some(route.handler);
    }

    /// The handler that answers `path` and `rtype`: the one registered for
    /// exactly these, else the default handler, else none.
    pub fn find_handler(&self, path: String, rtype: RequestType) -> (handler: Option<H>)
        requires
            self.wf(),
        ensures
            handler == self@.find(path@, rtype),
    {
        match self.position(&path, rtype) {
            Some(i) => {
                proof {
                    lemma_table_entry(self.routes@, i as int);
                }
                Some(self.routes[i].handler)
            },
            None => self.fallback,
        }
    }
}

} // verus!
