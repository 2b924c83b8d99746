# kiabluejay

A small static web server. The library (`src/`, verified with Verus) holds
its decisions; `app/` is the server program around it.

- `text`: characters of strings, decimal digits.
- `json_events`: log levels and filtering, the one-line JSON rendering of a
  log record, the record logged for a panic.
- `paths`: URL-path normal forms, page matching, and the sanitising of a
  request path into plain segments under the static root.
- `site`: configuration, the rewrite table, and what each handler serves and
  stores in the session.
- `pem`: certificates and the private key out of PEM text.
- `server`: start-up defaults and the server's own log lines.
