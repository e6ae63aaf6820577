# bittuly

A URL shortener split into an authentication service (sign-up with a
one-time code, JWT sessions in HttpOnly cookies), a link service (base62
short codes, cursor pagination, cached redirects) and a consumer (batched
click counts, clean-up of a deleted user's links with retries and a
dead-letter queue).

The decisions of the services are a library verified with Verus:

- `src/text.rs`: decimal and hexadecimal numerals, parsing, trimming.
- `src/ids.rs`: user ids, base62 short codes, UTC instants.
- `src/config.rs`: the typestate configuration builder and the readers of
  the environment's values.
- `src/hashing.rs`: password hashing strategies.
- `src/session.rs`: tokens, cookies, and the authentication decision.
- `src/users.rs`: validation, the in-memory user repository, the account
  services and their HTTP answers.
- `src/urls.rs`: the in-memory link repository and pagination.
- `src/url_api.rs`: the link endpoints' decisions and the SQL steps.
- `src/clicks.rs`: the click batcher.
- `src/messaging.rs`: queues, retries, events.
- `src/otp.rs`: the development stores of one-time codes and the mail text.
- `src/health.rs`: the health report.

`app/` holds the services themselves (HTTP, SQL, Redis, RabbitMQ, SMTP):
`bittuly auth`, `bittuly url` or `bittuly consumer`.
