# smartcast

The rules of a remote for SmartCast televisions, verified with Verus, and the
adapter of a desktop shell around them.

- `src/origin.rs`: the origin that a typed address or a request's URL names.
- `src/measure.rs`: how much of a URL's text is counted when it is read.
- `src/exchange.rs`: one request, from its bounds to its response.
- `src/run.rs`: one operation of the core, request by request.
- `src/course.rs`: laws of an operation together with its requests and the
  user's cancelling.
- `src/session.rs`: setting up a session and forgetting its credential.
- `src/ssdp.rs`: replies to a search of the local network.
- `src/search.rs`: the course of such a search.
- `src/json.rs`, `src/text.rs`: JSON values and text.
- `app/`: sockets, HTTP, the credential vault, and the shell's commands. It
  performs what a state of the library says and hands back what happened.

Each course of events is a state with a method `next`, which takes in what
happened and returns the state that follows. The contracts say which one, over
a mathematical value of the state, and public proof functions named `law_...`
state what holds of every course.
