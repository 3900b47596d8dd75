use mavri::client::client::ClientState;
use mavri::client_manager::client_manager::ClientManager;
use mavri::server::{
    after_read, after_write, route_event, EventRoute, ReadFollowUp, Worker, CLIENT_INTEREST,
    EPOLLERR, EPOLLET, EPOLLHUP, EPOLLIN, EPOLLOUT, EPOLLRDHUP,
};

#[test]
fn routes_for_clients() {
    assert_eq!(route_event(EPOLLIN, 5, 3), EventRoute::Read);
    assert_eq!(route_event(EPOLLOUT, 5, 3), EventRoute::Write);
    assert_eq!(route_event(EPOLLIN | EPOLLOUT, 5, 3), EventRoute::Skip);
    assert_eq!(route_event(EPOLLERR, 5, 3), EventRoute::Drop);
    assert_eq!(route_event(EPOLLHUP, 5, 3), EventRoute::Drop);
    assert_eq!(route_event(EPOLLRDHUP, 5, 3), EventRoute::Drop);
    assert_eq!(route_event(EPOLLIN | EPOLLERR, 5, 3), EventRoute::Drop);
    assert_eq!(route_event(EPOLLIN | EPOLLRDHUP, 5, 3), EventRoute::Drop);
    assert_eq!(route_event(0, 5, 3), EventRoute::Drop);
}

#[test]
fn routes_for_listener() {
    assert_eq!(route_event(EPOLLIN, 3, 3), EventRoute::Accept);
    assert_eq!(route_event(EPOLLOUT, 3, 3), EventRoute::Accept);
    assert_eq!(route_event(EPOLLERR, 3, 3), EventRoute::Drop);
}

#[test]
fn follow_ups() {
    assert_eq!(after_read(Some(ClientState::READING)), ReadFollowUp::Keep);
    assert_eq!(after_read(Some(ClientState::REQUEST_READED)), ReadFollowUp::WatchWritable);
    assert_eq!(after_read(Some(ClientState::ERROR)), ReadFollowUp::Close);
    assert_eq!(after_read(None), ReadFollowUp::Close);
    assert!(after_write(Some(ClientState::RESPONSE_WRITED)));
    assert!(!after_write(Some(ClientState::WRITING)));
    assert!(!after_write(Some(ClientState::FILE_WRITING)));
    assert!(after_write(Some(ClientState::READING)));
    assert!(after_write(None));
}

#[test]
fn client_manager_keeps_path() {
    let manager = ClientManager::new("/srv/www");
    assert_eq!(manager.get_path(), "/srv/www");
}

#[test]
fn failure_bits_always_close() {
    assert_eq!(route_event(EPOLLIN | EPOLLHUP, 5, 3), EventRoute::Drop);
    assert_eq!(route_event(EPOLLOUT | EPOLLERR, 5, 3), EventRoute::Drop);
    assert_eq!(route_event(EPOLLIN | EPOLLRDHUP, 3, 3), EventRoute::Drop);
}

#[test]
fn client_interest_is_edge_triggered_input() {
    assert_eq!(CLIENT_INTEREST, EPOLLIN | EPOLLET);
}

#[test]
fn worker_takes_in_fresh_readers() {
    let mut worker = Worker::new();
    assert!(!worker.keeps(9));
    worker.take_in(9);
    assert!(worker.keeps(9));
    assert!(!worker.keeps(10));
    let client = worker.client(9);
    assert_eq!(client.socket, 9);
    assert_eq!(client.state, ClientState::READING);
    assert!(client.write_buffer().is_empty());
}

#[test]
fn worker_keeps_reading_and_writing_clients() {
    let mut worker = Worker::new();
    worker.take_in(4);
    assert_eq!(worker.after_read(4, Some(ClientState::READING)), ReadFollowUp::Keep);
    assert!(worker.keeps(4));
    assert_eq!(
        worker.after_read(4, Some(ClientState::REQUEST_READED)),
        ReadFollowUp::WatchWritable
    );
    assert!(worker.keeps(4));
    assert!(!worker.after_write(4, Some(ClientState::WRITING)));
    assert!(!worker.after_write(4, Some(ClientState::FILE_WRITING)));
    assert!(worker.keeps(4));
}

#[test]
fn worker_forgets_closed_clients() {
    let mut worker = Worker::new();
    worker.take_in(4);
    worker.take_in(5);
    worker.take_in(6);
    worker.take_in(7);
    assert_eq!(worker.after_read(4, Some(ClientState::ERROR)), ReadFollowUp::Close);
    assert!(!worker.keeps(4));
    assert_eq!(worker.after_read(5, None), ReadFollowUp::Close);
    assert!(!worker.keeps(5));
    assert!(worker.after_write(6, Some(ClientState::RESPONSE_WRITED)));
    assert!(!worker.keeps(6));
    worker.drop_client(7);
    assert!(!worker.keeps(7));
    worker.take_in(8);
    assert!(worker.after_write(8, None));
    assert!(!worker.keeps(8));
}
