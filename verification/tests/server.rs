use serve_pool::pool_model::WorkerState;
use serve_pool::router::{Request, RequestType, Route};
use serve_pool::server::{Arrival, Job, Outcome, Server};
use serve_pool::thread_pool::Claim;

type Handler = fn(&Request) -> Vec<u8>;
type Stream = Vec<u8>;

fn hello(_request: &Request) -> Vec<u8> {
    b"HTTP/1.1 200 OK\r\n\r\nhello".to_vec()
}

fn echo_path(request: &Request) -> Vec<u8> {
    request.path.as_bytes().to_vec()
}

fn not_found(_request: &Request) -> Vec<u8> {
    b"HTTP/1.1 404 Not Found\r\n\r\n".to_vec()
}

fn get(path: &str) -> Request {
    Request { path: path.to_string(), rtype: RequestType::Get }
}

fn route(path: &str, rtype: RequestType, handler: Handler) -> Route<Handler> {
    Route { path: path.to_string(), rtype, handler }
}

fn work(server: &mut Server<Handler, Stream>, worker: usize) -> Option<Stream> {
    match server.pool().claim(worker) {
        Claim::Job(job) => {
            let Job { handler, request, mut stream } = job;
            let bytes = handler(&request);
            stream.extend_from_slice(&bytes);
            server.pool().complete(worker);
            Some(stream)
        }
        _ => None,
    }
}

#[test]
fn new_server_has_its_port_and_idle_workers() {
    let mut server: Server<Handler, Stream> = Server::new(8080, 3);
    assert_eq!(server.port(), 8080);
    assert_eq!(server.pool().size(), 3);
    assert_eq!(server.pool().queued(), 0);
    assert!(server.pool().is_open());
    assert_eq!(server.pool().state(2), WorkerState::Idle);
}

#[test]
fn default_server_listens_on_6060_with_20_workers() {
    let mut server: Server<Handler, Stream> = Server::default();
    assert_eq!(server.port(), 6060);
    assert_eq!(server.pool().size(), 20);
}

#[test]
fn registered_route_writes_its_handlers_bytes() {
    let mut server: Server<Handler, Stream> = Server::new(6060, 1);
    server.add_route(route("/x", RequestType::Get, hello));
    let outcome = server.run(Arrival::Parsed(get("/x"), Vec::new()));
    assert_eq!(outcome, Outcome::Submitted);
    assert_eq!(server.pool().queued(), 1);
    let written = work(&mut server, 0);
    assert_eq!(written, Some(b"HTTP/1.1 200 OK\r\n\r\nhello".to_vec()));
}

#[test]
fn unmatched_route_without_default_writes_nothing() {
    let mut server: Server<Handler, Stream> = Server::new(6060, 1);
    server.add_route(route("/x", RequestType::Get, hello));
    let outcome = server.run(Arrival::Parsed(get("/y"), Vec::new()));
    assert_eq!(outcome, Outcome::NoHandler);
    assert_eq!(server.pool().queued(), 0);
    assert_eq!(work(&mut server, 0), None);
}

#[test]
fn default_handler_answers_an_unmatched_request() {
    let mut server: Server<Handler, Stream> = Server::new(6060, 2);
    server.add_route(route("/x", RequestType::Get, hello));
    server.add_default_handler(route("", RequestType::Get, not_found));
    assert_eq!(server.run(Arrival::Parsed(get("/y"), Vec::new())), Outcome::Submitted);
    assert_eq!(work(&mut server, 1), Some(b"HTTP/1.1 404 Not Found\r\n\r\n".to_vec()));
}

#[test]
fn job_carries_the_request_and_the_stream_it_came_with() {
    let mut server: Server<Handler, Stream> = Server::new(6060, 1);
    server.add_route(route("/echo", RequestType::Post, echo_path));
    let request = Request { path: "/echo".to_string(), rtype: RequestType::Post };
    assert_eq!(server.run(Arrival::Parsed(request, b"> ".to_vec())), Outcome::Submitted);
    assert_eq!(work(&mut server, 0), Some(b"> /echo".to_vec()));
}

#[test]
fn refused_connection_leaves_the_loop_ready() {
    let mut server: Server<Handler, Stream> = Server::new(6060, 1);
    server.add_route(route("/x", RequestType::Get, hello));
    assert_eq!(server.run(Arrival::Refused), Outcome::AcceptFailed);
    assert_eq!(server.pool().queued(), 0);
    assert_eq!(server.run(Arrival::Parsed(get("/x"), Vec::new())), Outcome::Submitted);
    assert_eq!(server.pool().queued(), 1);
}

#[test]
fn malformed_request_leaves_the_loop_ready() {
    let mut server: Server<Handler, Stream> = Server::new(6060, 1);
    server.add_route(route("/x", RequestType::Get, hello));
    assert_eq!(server.run(Arrival::Malformed(Vec::new())), Outcome::ParseFailed);
    assert_eq!(server.pool().queued(), 0);
    assert_eq!(server.run(Arrival::Parsed(get("/x"), Vec::new())), Outcome::Submitted);
    assert_eq!(work(&mut server, 0), Some(b"HTTP/1.1 200 OK\r\n\r\nhello".to_vec()));
}

#[test]
fn unmatched_route_leaves_the_loop_ready() {
    let mut server: Server<Handler, Stream> = Server::new(6060, 1);
    server.add_route(route("/x", RequestType::Get, hello));
    assert_eq!(server.run(Arrival::Parsed(get("/nowhere"), Vec::new())), Outcome::NoHandler);
    assert_eq!(server.run(Arrival::Parsed(get("/x"), Vec::new())), Outcome::Submitted);
    assert_eq!(server.pool().queued(), 1);
}

#[test]
fn server_does_not_wait_for_submitted_jobs() {
    let mut server: Server<Handler, Stream> = Server::new(6060, 1);
    server.add_route(route("/x", RequestType::Get, echo_path));
    for _ in 0..5 {
        assert_eq!(server.run(Arrival::Parsed(get("/x"), Vec::new())), Outcome::Submitted);
    }
    assert_eq!(server.pool().queued(), 5);
    assert_eq!(server.pool().state(0), WorkerState::Idle);
    for _ in 0..5 {
        assert_eq!(work(&mut server, 0), Some(b"/x".to_vec()));
    }
    assert_eq!(work(&mut server, 0), None);
}
