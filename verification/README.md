# oxibrowser

The logic of a headless browser, written in Rust and verified with Verus.

- `src/` is the verified library. Contracts say what its functions return or
  change, and public proof functions state what holds of several together. What
  is believed of other crates and of std stands in a few small functions, each
  with a comment that says what it claims; of the text of an I/O error nothing
  is claimed.
  - `text`, `strmap`, `json`, `codec`: texts, maps keyed by text, JSON values,
    base64 and UTF-8.
  - `search`: reading a page of search results.
  - `cdp`: the Chrome DevTools Protocol: messages, sessions, and the Page and
    Fetch domains.
  - `js`: what scripts see of the page and the browser, and the thread that
    runs them.
  - `render`: configurations, pictures, and what is painted on a PDF page.
- `tests/` runs the library on concrete values.
- `app/` joins the library to the script engine (Boa), the layout and paint
  engines (Blitz, Vello, Krilla), WebSockets and the network.

Floating-point numbers stand in the library by their bits.
