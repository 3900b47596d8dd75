//! The decisions of the server's event loop: what an epoll event on a socket
//! calls for, what follows a read or a write on a client, and which sockets
//! the loop keeps clients for and watches.

use vstd::prelude::*;
use std::collections::HashMap;
use crate::client::client::{ClientState, HttpClient, fresh_client};
use crate::client_manager::client_manager::value_mut;

verus! {

broadcast use vstd::std_specs::hash::group_hash_axioms;

/// The socket can be read.
pub const EPOLLIN: u32 = 0x001;

/// The socket can be written.
pub const EPOLLOUT: u32 = 0x004;

/// An error happened on the socket.
pub const EPOLLERR: u32 = 0x008;

/// The socket hung up.
pub const EPOLLHUP: u32 = 0x010;

/// The peer closed its writing side.
pub const EPOLLRDHUP: u32 = 0x2000;

/// Report a change of state only once (edge-triggered).
pub const EPOLLET: u32 = 0x8000_0000;

/// What a freshly accepted client is watched for: input, edge-triggered.
pub const CLIENT_INTEREST: u32 = 0x8000_0001;

/// Whether every flag set in `events` is among `flags`.
pub open spec fn only(events: u32, flags: u32) -> bool {
    events & flags == events
}

/// What an event on a socket calls for.
#[derive(PartialEq, Eq, Structural, Clone, Copy, Debug)]
pub enum EventRoute {
    /// Close the socket and forget its client.
    Drop,
    /// Accept the connections waiting on the listening socket.
    Accept,
    /// Read from the client.
    Read,
    /// Write to the client.
    Write,
    /// Nothing to do.
    Skip,
}

/// An event that carries only an error, only a hang-up, only a peer close, or
/// anything beside readable and writable closes the socket. Otherwise the
/// listening socket accepts; a client that is only readable is read, one that
/// is only writable is written to.
pub open spec fn route(events: u32, is_listener: bool) -> EventRoute {
    if only(events, EPOLLERR) || only(events, EPOLLHUP) || !only(events, EPOLLIN | EPOLLOUT)
        || only(events, EPOLLRDHUP) {
        EventRoute::Drop
    } else if is_listener {
        EventRoute::Accept
    } else if only(events, EPOLLIN) {
        EventRoute::Read
    } else if only(events, EPOLLOUT) {
        EventRoute::Write
    } else {
        EventRoute::Skip
    }
}

/// Events on the listening socket only ever accept or close it; events on a
/// client never accept.
pub proof fn law_listener_only_accepts(events: u32)
    ensures
        route(events, true) == EventRoute::Drop || route(events, true) == EventRoute::Accept,
        route(events, false) != EventRoute::Accept,
{
}

/// Any event that carries an error, a hang-up or a peer close closes the
/// socket; a client is read only on an event that is only readable and written
/// to only on one that is only writable.
pub proof fn law_event_routes(events: u32, is_listener: bool)
    ensures
        events & (EPOLLERR | EPOLLHUP | EPOLLRDHUP) != 0 ==> route(events, is_listener)
            == EventRoute::Drop,
        route(events, is_listener) == EventRoute::Read ==> !is_listener && only(events, EPOLLIN),
        route(events, is_listener) == EventRoute::Write ==> !is_listener && only(events, EPOLLOUT),
{
    assert(0x008u32 | 0x010u32 | 0x2000u32 == 0x2018u32) by (bit_vector);
    assert(0x001u32 | 0x004u32 == 0x5u32) by (bit_vector);
    assert(events & 0x2018u32 != 0 ==> events & 0x5u32 != events) by (bit_vector);
}

/// A client is watched for writing only once its request is in; a failed read,
/// an error, a finished response, a failed write or any state but writing
/// closes it.
pub proof fn law_follow_ups(result: Option<ClientState>)
    ensures
        read_follow_up(result) == ReadFollowUp::WatchWritable <==> result == Some(
            ClientState::REQUEST_READED,
        ),
        read_follow_up(result) == ReadFollowUp::Keep <==> result == Some(ClientState::READING),
        result is None || result == Some(ClientState::ERROR) ==> read_follow_up(result)
            == ReadFollowUp::Close,
        !closes_after_write(result) <==> (result == Some(ClientState::WRITING) || result == Some(
            ClientState::FILE_WRITING,
        )),
{
}

/// What an event with flags `events` on `socket` calls for, `listener` being
/// the listening socket.
pub fn route_event(events: u32, socket: i32, listener: i32) -> (r: EventRoute)
    ensures
        r == route(events, socket == listener),
{
    if events & EPOLLERR == events || events & EPOLLHUP == events || events & (EPOLLIN | EPOLLOUT)
        != events || events & EPOLLRDHUP == events {
        EventRoute::Drop
    } else if socket == listener {
        EventRoute::Accept
    } else if events & EPOLLIN == events {
        EventRoute::Read
    } else if events & EPOLLOUT == events {
        EventRoute::Write
    } else {
        EventRoute::Skip
    }
}

/// What follows a read on a client.
#[derive(PartialEq, Eq, Structural, Clone, Copy, Debug)]
pub enum ReadFollowUp {
    /// Keep waiting for more of the request.
    Keep,
    /// The request is in: wait until the client can be written to.
    WatchWritable,
    /// Close the connection.
    Close,
}

/// A client still reading is kept, one whose request is in is watched for
/// writing, and any other outcome (a read error is `None`) closes it.
pub open spec fn read_follow_up(result: Option<ClientState>) -> ReadFollowUp {
    match result {
        Some(ClientState::READING) => ReadFollowUp::Keep,
        Some(ClientState::REQUEST_READED) => ReadFollowUp::WatchWritable,
        _ => ReadFollowUp::Close,
    }
}

pub fn after_read(result: Option<ClientState>) -> (r: ReadFollowUp)
    ensures
        r == read_follow_up(result),
{
    match result {
        Some(ClientState::READING) => ReadFollowUp::Keep,
        Some(ClientState::REQUEST_READED) => ReadFollowUp::WatchWritable,
        _ => ReadFollowUp::Close,
    }
}

/// A client still writing the head or the file stays open; a finished
/// response, any other state, or a write error (`None`) closes it.
pub open spec fn closes_after_write(result: Option<ClientState>) -> bool {
    !(result == Some(ClientState::WRITING) || result == Some(ClientState::FILE_WRITING))
}

pub fn after_write(result: Option<ClientState>) -> (close: bool)
    ensures
        close == closes_after_write(result),
{
    match result {
        Some(ClientState::RESPONSE_WRITED) => true,
        Some(ClientState::FILE_WRITING) => false,
        Some(ClientState::WRITING) => false,
        _ => true,
    }
}

/// The clients of one event loop, by socket, and what epoll watches each for.
pub struct Worker {
    clients: HashMap<i32, HttpClient>,
    watched: Ghost<Map<i32, u32>>,
}

/// The clients a worker keeps, and the events epoll watches each socket for.
pub struct WorkerView {
    pub clients: Map<i32, HttpClient>,
    pub watched: Map<i32, u32>,
}

impl View for Worker {
    type V = WorkerView;

    closed spec fn view(&self) -> WorkerView {
        WorkerView { clients: self.clients@, watched: self.watched@ }
    }
}

/// One step of an event loop's bookkeeping.
pub enum LoopOp {
    /// An accepted socket is registered for `CLIENT_INTEREST` and kept.
    Enter(i32),
    /// The client of a socket is read from or written to in place.
    Work(i32),
    /// An error event closes a socket.
    Drop(i32),
    /// A read on a client ended with this outcome (`None` for a read error).
    Read(i32, Option<ClientState>),
    /// A write on a client ended with this outcome (`None` for a write error).
    Write(i32, Option<ClientState>),
}

/// The socket a step is about.
pub open spec fn op_socket(op: LoopOp) -> i32 {
    match op {
        LoopOp::Enter(fd) => fd,
        LoopOp::Work(fd) => fd,
        LoopOp::Drop(fd) => fd,
        LoopOp::Read(fd, _) => fd,
        LoopOp::Write(fd, _) => fd,
    }
}

/// The worker with the client of `fd` forgotten and its socket no longer watched.
pub open spec fn forget(w: WorkerView, fd: i32) -> WorkerView {
    WorkerView { clients: w.clients.remove(fd), watched: w.watched.remove(fd) }
}

/// How one step changes a worker. An accepted socket gets a fresh client and
/// is watched for input; every other step is about a socket already kept. An
/// error event forgets it; after a read it stays, is watched for output (the
/// request is in) or is forgotten; after a write it stays while the response
/// is still going out, and is forgotten otherwise.
pub open spec fn worker_step(pre: WorkerView, op: LoopOp, post: WorkerView) -> bool {
    match op {
        LoopOp::Enter(fd) => {
            &&& post.clients == pre.clients.insert(fd, post.clients[fd])
            &&& post.clients[fd]@ == fresh_client(fd, EPOLLIN as i32)
            &&& post.watched == pre.watched.insert(fd, CLIENT_INTEREST)
        },
        LoopOp::Work(fd) => {
            &&& pre.clients.contains_key(fd)
            &&& post.clients == pre.clients.insert(fd, post.clients[fd])
            &&& post.watched == pre.watched
        },
        LoopOp::Drop(fd) => pre.clients.contains_key(fd) && post == forget(pre, fd),
        LoopOp::Read(fd, result) => {
            &&& pre.clients.contains_key(fd)
            &&& match read_follow_up(result) {
                ReadFollowUp::Keep => post == pre,
                ReadFollowUp::WatchWritable => post == (WorkerView {
                    clients: pre.clients,
                    watched: pre.watched.insert(fd, EPOLLOUT),
                }),
                ReadFollowUp::Close => post == forget(pre, fd),
            }
        },
        LoopOp::Write(fd, result) => {
            &&& pre.clients.contains_key(fd)
            &&& if closes_after_write(result) {
                post == forget(pre, fd)
            } else {
                post == pre
            }
        },
    }
}

/// Every socket a worker keeps a client for is watched by epoll, and no other:
/// each step keeps that so.
pub proof fn law_clients_are_watched(pre: WorkerView, op: LoopOp, post: WorkerView)
    requires
        worker_step(pre, op, post),
        pre.clients.dom() == pre.watched.dom(),
    ensures
        post.clients.dom() == post.watched.dom(),
{
}

/// A socket comes to be kept only by being taken in, as a fresh client that is
/// reading and watched for input (edge-triggered); any other step is about a
/// socket already kept.
pub proof fn law_sockets_enter_fresh(pre: WorkerView, op: LoopOp, post: WorkerView, fd: i32)
    requires
        worker_step(pre, op, post),
    ensures
        !(op is Enter) ==> pre.clients.contains_key(op_socket(op)),
        !pre.clients.contains_key(fd) && post.clients.contains_key(fd) ==> {
            &&& op == LoopOp::Enter(fd)
            &&& post.clients[fd]@ == fresh_client(fd, EPOLLIN as i32)
            &&& post.clients[fd]@.state == ClientState::READING
            &&& post.watched[fd] == CLIENT_INTEREST
        },
{
    if !pre.clients.contains_key(fd) && post.clients.contains_key(fd) {
        match op {
            LoopOp::Enter(s) => {
                if s != fd {
                    assert(post.clients.dom() == pre.clients.dom().insert(s));
                }
            },
            LoopOp::Work(s) => {
                assert(post.clients.dom() == pre.clients.dom());
            },
            _ => {},
        }
    }
}

/// A socket is watched for output only once a read on it found its whole
/// request.
pub proof fn law_watched_for_output_after_request(
    pre: WorkerView,
    op: LoopOp,
    post: WorkerView,
    fd: i32,
)
    requires
        worker_step(pre, op, post),
        post.watched.contains_key(fd) && post.watched[fd] == EPOLLOUT,
        !(pre.watched.contains_key(fd) && pre.watched[fd] == EPOLLOUT),
    ensures
        op == LoopOp::Read(fd, Some(ClientState::REQUEST_READED)),
{
    assert(CLIENT_INTEREST != EPOLLOUT);
    match op {
        LoopOp::Read(s, result) => {
            if s != fd {
                assert(post.watched[fd] == pre.watched[fd]);
            }
        },
        LoopOp::Enter(s) => {
            if s != fd {
                assert(post.watched[fd] == pre.watched[fd]);
            }
        },
        _ => {},
    }
}

/// A socket is forgotten (and closed) only on an error event, a read that
/// failed or went wrong, or a write that finished or failed; the step that
/// forgets it is about that very socket, finds it kept, and leaves it neither
/// kept nor watched, so no socket is closed twice.
pub proof fn law_sockets_leave_once(pre: WorkerView, op: LoopOp, post: WorkerView, fd: i32)
    requires
        worker_step(pre, op, post),
        pre.clients.contains_key(fd),
        !post.clients.contains_key(fd),
    ensures
        op_socket(op) == fd,
        op == LoopOp::Drop(fd) || (op matches LoopOp::Read(_, r) && read_follow_up(r)
            == ReadFollowUp::Close) || (op matches LoopOp::Write(_, r) && closes_after_write(r)),
        !post.watched.contains_key(fd),
{
    match op {
        LoopOp::Enter(s) => {
            assert(post.clients.contains_key(fd));
        },
        LoopOp::Work(s) => {
            assert(post.clients.contains_key(fd));
        },
        LoopOp::Drop(s) => {
            assert(post.clients.dom() == pre.clients.dom().remove(s));
        },
        LoopOp::Read(s, r) => {
            if read_follow_up(r) == ReadFollowUp::Close {
                assert(post.clients.dom() == pre.clients.dom().remove(s));
            }
        },
        LoopOp::Write(s, r) => {
            if closes_after_write(r) {
                assert(post.clients.dom() == pre.clients.dom().remove(s));
            }
        },
    }
}

/// An error event, a read that failed or went wrong, and a write that finished
/// or failed each leave their socket neither kept nor watched.
pub proof fn law_closing_steps_forget(pre: WorkerView, op: LoopOp, post: WorkerView)
    requires
        worker_step(pre, op, post),
        op is Drop || (op matches LoopOp::Read(_, r) && read_follow_up(r) == ReadFollowUp::Close)
            || (op matches LoopOp::Write(_, r) && closes_after_write(r)),
    ensures
        !post.clients.contains_key(op_socket(op)),
        !post.watched.contains_key(op_socket(op)),
{
}

impl Worker {
    /// A worker with no clients.
    pub fn new() -> (r: Worker)
        ensures
            r@.clients == Map::<i32, HttpClient>::empty(),
            r@.watched == Map::<i32, u32>::empty(),
    {
        Worker { clients: HashMap::new(), watched: Ghost(Map::empty()) }
    }

    /// Whether a client is kept for `fd`.
    pub fn keeps(&self, fd: i32) -> (r: bool)
        ensures
            r == self@.clients.contains_key(fd),
    {
        self.clients.contains_key(&fd)
    }

    /// Keeps a fresh client for a socket just registered with epoll for
    /// `CLIENT_INTEREST`.
    pub fn take_in(&mut self, fd: i32)
        ensures
            worker_step(old(self)@, LoopOp::Enter(fd), final(self)@),
    {
        let client = HttpClient::new(fd, EPOLLIN as i32);
        self.clients.insert(fd, client);
        self.watched = Ghost(self.watched@.insert(fd, CLIENT_INTEREST));
    }

    /// The client kept for `fd`, to read from or write to in place.
    pub fn client(&mut self, fd: i32) -> (r: &mut HttpClient)
        requires
            old(self)@.clients.contains_key(fd),
        ensures
            *r == old(self)@.clients[fd],
            final(self)@.clients == old(self)@.clients.insert(fd, *final(r)),
            worker_step(old(self)@, LoopOp::Work(fd), final(self)@),
    {
        value_mut(&mut self.clients, fd)
    }

    /// Forgets the client of a socket that an error event closes.
    pub fn drop_client(&mut self, fd: i32)
        requires
            old(self)@.clients.contains_key(fd),
        ensures
            worker_step(old(self)@, LoopOp::Drop(fd), final(self)@),
    {
        self.clients.remove(&fd);
        self.watched = Ghost(self.watched@.remove(fd));
    }

    /// Takes the outcome of a read on `fd` and says what follows: the client
    /// is kept, watched for output, or forgotten (and is to be closed).
    pub fn after_read(&mut self, fd: i32, result: Option<ClientState>) -> (r: ReadFollowUp)
        requires
            old(self)@.clients.contains_key(fd),
        ensures
            r == read_follow_up(result),
            worker_step(old(self)@, LoopOp::Read(fd, result), final(self)@),
    {
        let r = after_read(result);
        match r {
            ReadFollowUp::Keep => {},
            ReadFollowUp::WatchWritable => {
                self.watched = Ghost(self.watched@.insert(fd, EPOLLOUT));
            },
            ReadFollowUp::Close => {
                self.clients.remove(&fd);
                self.watched = Ghost(self.watched@.remove(fd));
            },
        }
        r
    }

    /// Takes the outcome of a write on `fd` and says whether the client is
    /// forgotten (and is to be closed).
    pub fn after_write(&mut self, fd: i32, result: Option<ClientState>) -> (close: bool)
        requires
            old(self)@.clients.contains_key(fd),
        ensures
            close == closes_after_write(result),
            worker_step(old(self)@, LoopOp::Write(fd, result), final(self)@),
    {
        let close = after_write(result);
        if close {
            self.clients.remove(&fd);
            self.watched = Ghost(self.watched@.remove(fd));
        }
        close
    }
}

} // verus!
