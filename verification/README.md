# dragonfly_http

HTTP headers and byte ranges for range tasks, verified with Verus.

- `src/range.rs`: byte ranges, the Range header, exact ranges.
- `src/compact.rs`: compact range tasks and the chunk grid to which their ranges are
  held.
- `src/response.rs`: checks that a response transfers the requested bytes.
- `src/convert.rs`: conversions between header lines, string hash maps and header maps.
- `src/fields.rs`: lookups in string hash maps.
- `src/header_map.rs`: the header map of `reqwest`, and what is relied on in it.
- `src/text.rs`: splitting, trimming, comparing and reading of text, and numbers in base
  ten.
- `src/status.rs`, `src/error.rs`: status codes and errors.
- `src/laws.rs`: what holds of the library as a whole.
- `app/`: entry points for callers that hold `reqwest` responses.
- `tests/`: tests on concrete values.
