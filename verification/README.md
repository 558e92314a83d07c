# bilibili_tui

The verified core of a terminal client for Bilibili, written in Verus.

`src/` is the library. Every function in it carries a contract that Verus
proves:

- `api/` — response models and the decisions taken on them: the live-room
  wire protocol (`live_ws`: packets, their encoding and decoding through
  nested compressed bodies, the messages they carry), live play URLs and
  their ranking (`live`), DASH stream choice and the per-host CDN ledger
  (`cdn`), the CDN host catalog (`catalog`), articles rendered as text blocks
  (`article`), the dynamic feed, watch history, favourites, space and video
  models, and the client's own rules on responses, cookies and retries
  (`client`); what the client takes from each answer (`responses`), the
  URLs and forms it builds (`requests`), the CDN URLs it probes, one per
  host (`candidates`), and the live danmaku connection's host rotation
  (`live_client`).
- `playback` — the state machines of live failover and playlist playback.
- `player` — playlist order, mpv command lines and IPC replies, retry waits
  and the range headers of the media proxy.
- `proxy` — the media proxy's request handling, response heads, the
  headers it relays, upstream failover and prefetch buffers.
- `navigation` — the page to return to and the tracking of the latest
  request of each kind.
- `json`, `html`, `text`, `url` — a JSON tree read through `serde_json`,
  HTML fragments read through `scraper`,
  character-level string functions with contracts over `Seq<char>`, and URLs
  taken apart by the parser `reqwest` exports.

Calls into `serde_json`, `scraper`, `brotli`, `flate2`, `chrono` and
`reqwest` go through small trusted wrappers. Where a crate's result takes
more than a few lines to state, the wrapper's contract names it over plain
values: the text or bytes parsed, and for `scraper` the fragment's text and
the steps that reached an element. The library's contracts are stated over
those names, and lemmas show that what the library builds from a parsed
document depends on the document's content alone.

`app/` is ordinary Rust around the library: serde models and their
conversions, floating-point labels and CDN scores, the danmaku XML reader,
the files the client keeps, the media proxy's socket loop and prefetches,
the live danmaku connection loop over a websocket transport, the mpv process
and its IPC socket, and the loops that drive the playback state machines.

`tests/` runs the library on concrete values.
