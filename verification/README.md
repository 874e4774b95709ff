# quote_stream

A UDP quote streaming server whose decisions are proved with Verus.

- `src/` — the verified library:
  - `text`: Unicode white space, splitting into words and at a separator,
    decimal writing and reading of unsigned integers;
  - `ticker`: the quoted symbols, their names and the reading of a name;
  - `command`: client commands and the parse of the text subscription
    `STREAM udp://HOST:PORT T1,T2,...`;
  - `ping_monitor`: keep-alive bookkeeping and timeout detection;
  - `quote`: the `TICKER|PRICE|VOLUME|TIMESTAMP` quote line and the drawing of
    a quote's volume and time stamp;
  - `stream`: which quotes a client's stream forwards and when it ends;
  - `error`: the error type.
- `app/` — the server binary: sockets, threads, channels, the floating-point
  price, and the serialization derives.
- `tests/` — tests of the library.
