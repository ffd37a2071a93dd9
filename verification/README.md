# gaokao-apply

The verified core of a desktop assistant for the Chinese university entrance
examination (gaokao). The library in `src/` is written in Verus; every
function there carries a contract that Verus proves, except the six small
wrappers around `String::push`, `char::from_u32`,
`String::from_utf8_lossy`, `regex`, `encoding_rs` and lopdf's content
decoder, whose contracts are
trusted (each one's doc comment says what it claims of the outside code).

- `text`: whitespace, trimming, lines, tokens, decimal numbers, `u32` parsing.
- `cjk`: CJK characters, watermark removal, the plausibility test for
  extracted Chinese text.
- `cutoff`: parsing of admission cut-off tables from text extracted from PDF
  files, and the imported table with its title, note, sample and warning.
- `cmap`: ToUnicode CMaps (`bfchar`/`bfrange`) and decoding with them.
- `pdf_text`: text extraction from page content streams (decoded by lopdf),
  with GBK as the fallback for raw string bytes.
- `extract`: the order in which the PDF text extractors are tried.
- `rank`: the 2025 Shanghai score-to-rank table and rank queries.
- `chat`: the streaming chat protocol (the shape of the request's tools,
  event-stream lines, tool-call assembly, server resolution).
- `mcp`: MCP server configurations, request ids, reply matching, tool output.
- `storage`: stored file names, skill descriptions, table listings.

`app/` holds the unverified shell around it: file storage, MCP server
processes, the HTTP request, PDF loading, and the JSON forms of the types.
