//! The accept loop's decisions: what becomes of each connection.
//!
//! The server owns a pool and a route table. Accepting a connection and
//! reading a request from it happen outside; [`Server::run`] is told how that
//! went, and either queues a job for the pool or drops the connection.

use crate::pool_model::PoolView;
use crate::router::{Request, Route, Router, RouterView};
use crate::thread_pool::ThreadPool;
use vstd::prelude::*;

verus! {

/// One unit of work for the pool: answer `request` with `handler` and write
/// the answer to `stream`.
pub struct Job<H, C> {
    pub handler: H,
    pub request: Request,
    pub stream: C,
}

/// What the listener and the parser made of one turn of the accept loop.
pub enum Arrival<C> {
    /// The listener could not hand over a connection.
    Refused,
    /// A connection came in, but what it sent is no request.
    Malformed(C),
    /// A connection came in with this request.
    Parsed(Request, C),
}

/// What the server did with an arrival.
#[derive(Clone, Copy, PartialEq, Eq, Structural, Debug)]
pub enum Outcome {
    /// Nothing was accepted; nothing was done.
    AcceptFailed,
    /// The connection was dropped without an answer: no request was read.
    ParseFailed,
    /// The connection was dropped without an answer: no route matches and no
    /// default handler is set.
    NoHandler,
    /// A job was queued for the pool.
    Submitted,
}

/// The server as a mathematical value.
pub struct ServerView<H, C> {
    pub port: u16,
    pub pool: PoolView<Job<H, C>>,
    pub router: RouterView<H>,
}

impl<H, C> ServerView<H, C> {
    /// The job that an arrival leads to, if it leads to one: the arrival must
    /// carry a request, and a handler must answer it.
    pub open spec fn job_for(self, arrival: Arrival<C>) -> Option<Job<H, C>> {
        match arrival {
            Arrival::Parsed(request, stream) => match self.router.find(request.path@, request.rtype) {
                Some(handler) => Some(Job { handler, request, stream }),
                None => None,
            },
            _ => None,
        }
    }

    /// What the server answers to an arrival.
    pub open spec fn outcome_of(self, arrival: Arrival<C>) -> Outcome {
        match arrival {
            Arrival::Refused => Outcome::AcceptFailed,
            Arrival::Malformed(_) => Outcome::ParseFailed,
            Arrival::Parsed(request, _) => if self.router.find(request.path@, request.rtype).is_some() {
                Outcome::Submitted
            } else {
                Outcome::NoHandler
            },
        }
    }

    /// The server after one turn of the accept loop: a job is queued where
    /// the arrival leads to one, and nothing changes where it does not.
    pub open spec fn run(self, arrival: Arrival<C>) -> Self {
        match self.job_for(arrival) {
            Some(job) => ServerView { pool: self.pool.submit(job), ..self },
            None => self,
        }
    }
}

/// A server: a pool of workers, a route table, and the port it listens on.
pub struct Server<H, C> {
    port: u16,
    pool: ThreadPool<Job<H, C>>,
    router: Router<H>,
}

impl<H: Copy, C> View for Server<H, C> {
    type V = ServerView<H, C>;

    closed spec fn view(&self) -> ServerView<H, C> {
        ServerView { port: self.port, pool: self.pool@, router: self.router@ }
    }
}

impl<H: Copy, C> Server<H, C> {
    /// Whether the pool and the route table are in order.
    pub closed spec fn wf(&self) -> bool {
        self.pool.wf() && self.router.wf()
    }

    /// A server for `port` with `threads` idle workers and no routes.
    pub fn new(port: u16, threads: usize) -> (server: Self)
        requires
            threads > 0,
        ensures
            server.wf(),
            server@.port == port,
            server@.pool == PoolView::<Job<H, C>>::fresh(threads as nat),
            server@.router.table == Map::<(Seq<char>, crate::router::RequestType), H>::empty(),
            server@.router.fallback == None::<H>,
    {
        Server { port, pool: ThreadPool::new(threads), router: Router::new() }
    }

    /// One turn of the accept loop.
    ///
    /// A request that a handler answers becomes a job at the back of the
    /// pool's queue, and the server does not wait for it. Every other arrival
    /// is dropped and leaves the server as it was, ready for the next one.
    pub fn run(&mut self, arrival: Arrival<C>) -> (outcome: Outcome)
        requires
            old(self).wf(),
            old(self)@.pool.open,
        ensures
            final(self).wf(),
            final(self)@ == old(self)@.run(arrival),
            outcome == old(self)@.outcome_of(arrival),
    {
        match arrival {
            Arrival::Refused => Outcome::AcceptFailed,
            Arrival::Malformed(_) => Outcome::ParseFailed,
            Arrival::Parsed(request, stream) => {
                match self.router.find_handler(request.path.clone(), request.rtype) {
                    Some(handler) => {
                        self.pool.execute(Job { handler, request, stream });
                        Outcome::Submitted
                    },
                    None => Outcome::NoHandler,
                }
            },
        }
    }

    /// Registers `route`. A route registered before under the same path and
    /// request type gives way to the new one.
    pub fn add_route(&mut self, route: Route<H>)
        requires
            old(self).wf(),
        ensures
            final(self).wf(),
            final(self)@ == (ServerView {
                router: RouterView {
                    table: old(self)@.router.table.insert(route.key(), route.handler),
                    ..old(self)@.router
                },
                ..old(self)@
            }),
    {
        self.router.add_route(route);
    }

    /// Sets the handler for every request that no route answers. Of `route`
    /// only the handler counts.
    pub fn add_default_handler(&mut self, route: Route<H>)
        requires
            old(self).wf(),
        ensures
            final(self).wf(),
            final(self)@ == (ServerView {
                router: RouterView { fallback: Some(route.handler), ..old(self)@.router },
                ..old(self)@
            }),
    {
        self.router.add_default_handler(route);
    }

    /// The port the server was made for.
    pub fn port(&self) -> (port: u16)
        ensures
            port == self@.port,
    {
        self.port
    }

    /// The pool, for the workers' side of it.
    pub fn pool(&mut self) -> (pool: &mut ThreadPool<Job<H, C>>)
        requires
            old(self).wf(),
        ensures
            pool.wf(),
            pool@ == old(self)@.pool,
            final(pool).wf() ==> final(self).wf(),
            final(self)@ == (ServerView { pool: final(pool)@, ..old(self)@ }),
    {
        &mut self.pool
    }
}

impl<H: Copy, C> Default for Server<H, C> {
    /// A server for port 6060 with 20 workers.
    fn default() -> (server: Self)
        ensures
            server.wf(),
            server@.port == 6060,
            server@.pool == PoolView::<Job<H, C>>::fresh(20),
            server@.router.table == Map::<(Seq<char>, crate::router::RequestType), H>::empty(),
            server@.router.fallback == None::<H>,
    {
        Server::new(6060, 20)
    }
}

/// An arrival that leads to no job leaves the server as it was, so the next
/// arrival is dealt with as if the first had never come.
pub proof fn lemma_dropped_arrival_changes_nothing<H, C>(
    v: ServerView<H, C>,
    dropped: Arrival<C>,
    next: Arrival<C>,
)
    requires
        v.outcome_of(dropped) != Outcome::Submitted,
    ensures
        v.run(dropped) == v,
        v.run(dropped).run(next) == v.run(next),
        v.run(dropped).outcome_of(next) == v.outcome_of(next),
{
}

/// The server queues a job exactly for the arrivals that it reports as
/// submitted, and then the job is the newest in the queue.
pub proof fn lemma_submitted_means_queued<H, C>(v: ServerView<H, C>, arrival: Arrival<C>)
    ensures
        v.outcome_of(arrival) == Outcome::Submitted <==> v.job_for(arrival).is_some(),
        v.outcome_of(arrival) == Outcome::Submitted ==> v.run(arrival).pool.submitted
            == v.pool.submitted.push(v.job_for(arrival).unwrap()),
        v.outcome_of(arrival) != Outcome::Submitted ==> v.run(arrival).pool == v.pool,
        v.run(arrival).router == v.router,
        v.run(arrival).port == v.port,
{
}

} // verus!
