# crw

Verified parts of a web crawler and of its search API, in Verus.

- `src/robots.rs`, `src/pattern.rs`, `src/page_url.rs`: robots.txt. `RobotsTxt::parse` keeps the
  rules that bind this crawler, `is_allowed` and `is_url_allowed` give the verdict on a page.
- `src/fetch.rs`, `src/body.rs`: fetching that file. The library decides on the reply and on each
  chunk of the body; the caller moves the bytes.
- `src/search_request.rs`, `src/search.rs`, `src/json.rs`: `POST /v2/search`, from the body that a
  client sends to the envelope that goes back.
- `src/text.rs`, `src/error.rs`: what the others share.
- `src/laws/`: what holds of these together, as public proof functions.
- `tests/`: the library on concrete inputs.
- `app/`: the asynchronous edges around it, on `futures`, `reqwest`, `axum` and `serde`.

Four outside calls are taken on trust, each with its claim above it: `String::push`,
`String::from_utf8_lossy`, `url::Url::parse` and `uuid::Uuid::new_v4`. `serde_json::Number` is
carried through unread.
