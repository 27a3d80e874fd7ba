# Cirrus

A local object-storage service with the S3 API. The library under `src/` is written in Rust and
verified with Verus; `app/` puts it behind HTTP.

- `text`, `order`, `numbers`, `percent`, `string_map`: text and what is written in it.
- `clock`, `digest`, `blob`, `table`: time, checksums, byte strings and hash tables, on top of
  outside crates.
- `message`: HTTP requests and responses, as far as the services read and write them.
- `protocol`: the errors that clients see, the documents of the API, and their XML text.
- `router`: the registry of services, the fallback, and the checks of request bodies.
- `s3`: addressing, listing, the storage backend, the handlers and the service. `s3::model` says
  what a backend holds and what each call does; `s3::laws`, `s3::paging_laws` and
  `s3::service_laws` say what follows from that across calls, pages and requests.
