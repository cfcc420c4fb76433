# usrv

A minimal, synchronous HTTP/1.1 request router with extractors, written in
Verus: routing, body reading under limits, content-type checks and the
extractors are verified against contracts stated over a mathematical model of
requests and responses.

## Layout

- `src/message.rs`: the request model (method, version, URI, header fields,
  parts, request, response) and its views.
- `src/router.rs`, `src/service.rs`, `src/trie.rs`: route registration, the
  compiled router and its dispatch, the service that answers unrouted
  requests with `404`, and the path matcher of `matchit` behind trusted
  wrappers.
- `src/body.rs`, `src/send_body.rs`: request bodies read whole or in pieces
  under a byte limit, and response bodies.
- `src/extract/`, `src/arg/`: extractors and handler arguments.
- `src/error.rs`, `src/text.rs`, `src/into_res.rs`: errors, byte and text
  helpers, conversion into responses.
- `app/lib.rs`: what stays outside the verified library: conversion from and
  to `http` messages, bodies drained from readers, `serde`-based extraction,
  closure handlers and the `Display` of errors.

Contracts speak of the matcher's and of `form_urlencoded`'s results through
named functions (`trie_match`, `form_parse`, `uri_components`); everything the library computes from those results is proved.
