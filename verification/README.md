# Wasabi

Building blocks for web services, verified with Verus: what a service decides is proved, what it
does to the world is left to a thin layer around it.

- `src/` is the library. Functions state what they return, and the laws that hold of several
  functions together stand beside them as proof functions named `law_..`. Nothing is stated of the
  clock, nor of the methods that the traits `CachedObject` and `ResultExt` only declare; the types
  that implement them state it.
  - `web` reads bodies within limits, negotiates languages, maps errors to responses, validates
    tokens and evaluates permission expressions.
  - `aws` names buckets and tables, drives multipart uploads and decides when a cached object is
    refreshed.
  - `logging` says which events are noise.
  - `json`, `text`, `text_map` and `natural` are what the rest is made of.
- `tests/` runs the library with the crates that it calls.
- `app/` holds the filters, the server, the clients of AWS and the fetching of keys.

Calls into other crates (JSON, base64, tokens, percent-encoding, dates) go through small functions
marked `external_body`, each with a comment that says what is relied on.
