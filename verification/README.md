# http_fresh

HTTP response freshness (conditional `GET`) checking, verified with Verus.

`fresh(&Request, &Response)` decides whether a cached response is still fresh for a
request — whether the server may answer `304 Not Modified` — from the request's
`If-None-Match`, `If-Modified-Since` and `Cache-Control` headers and the response's
`ETag` and `Last-Modified`. Its contract states the decision exactly, over the text of
the headers; HTTP dates are read in the `IMF-fixdate`, `RFC 850` and `asctime` formats,
always in GMT.

## Layout

- `src/freshness.rs` — `fresh`, its specification and the laws of the decision.
- `src/headers.rs` — `Request`, `Response`, their builders and views.
- `src/etag.rs` — weak/strong entity-tag comparison and `If-None-Match` lists.
- `src/cache_control.rs` — the bounded `no-cache` directive.
- `src/http_date.rs` — reading HTTP dates.
- `src/date_formats.rs` — the three date formats written out, and the law that they
  agree.
- `src/calendar.rs` — the Gregorian calendar in days and seconds since the epoch.
- `src/text.rs` — characters, splitting, words and trimming.
- `tests/` — the library's tests.
