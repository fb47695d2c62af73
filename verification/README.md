# api_gateway

An API gateway that passes HTTP requests and WebSocket connections on to the
backends that its configuration names. What the gateway decides and computes is
a library verified with Verus; the traffic itself is ordinary Rust around it.

- `src/config.rs`: the configuration, its files and the placeholders
  `${NAME}` and `${NAME:default}` in them
- `src/routes.rs`: the route table of a configuration
- `src/backend.rs`: backend URIs and request targets
- `src/headers.rs`: header fields, in the `HeaderMap` of the `http` crate
- `src/handlers/`: requests for a backend, upgrade requests, and the bridge
  between two WebSockets
- `src/error.rs`: what can go wrong, and how it is reported
- `src/text.rs`: operations on text
- `app/`: reading files, serving and connecting

Functions named `law_...` state what holds of the library as a whole.
