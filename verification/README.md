# mavri

A static-file HTTP server, split into a verified library (`src/`) and a thin
program around it (`app/`).

- `src/http/request.rs`: the request line: method, target, percent-decoded path.
- `src/http/response.rs`: responses, their headers, and the bytes of a response head.
- `src/config_reader/reader.rs`: defaults and `key value` configuration lines.
- `src/file_handler/handler.rs`: mapping a request path to a file under the document root.
- `src/client/client.rs`: one connection as a state machine: reading the request,
  choosing the response, sending the head and the file. Socket and disk work is
  asked for as actions and answered as events.
- `src/client_manager/client_manager.rs`: clients by socket.
- `src/server.rs`: what an epoll event calls for, what follows a read or a write,
  and the bookkeeping of one event loop: which sockets it keeps clients for and
  what epoll watches each for.
- `app/main.rs`: configuration file, sockets, epoll, `sendfile` and worker threads.
