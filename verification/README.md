# statsforge

A GitHub language-stats card generator: a GET request such as
`/card?username=botond` is answered with an animated SVG card of the user's
top languages.

- `src/` is the verified library (Verus):
  - `params` validates and defaults the query parameters (username, colours,
    numeric bounds, the comma-separated exclusion list);
  - `github` builds the GraphQL request body, checks GitHub's status, and
    totals the per-repository language sizes into a ranking;
  - `svg` writes the card;
  - `config` reads the token and port settings;
  - `error` holds the error type with its message and HTTP status;
  - `text` holds the character-level helpers.
- `app/` is the HTTP service around it (axum, reqwest, tokio): it reads the
  environment and the query string, talks to GitHub, and does the card's
  floating-point arithmetic (font sizes, shares, bar widths), which the
  library takes as plain values.
- `tests/` exercises the library.

The font scale travels through the library as the bit pattern of an `f32`.
