# trmnl_cyberpunk

A self-hosted dashboard server for an 800 × 480 six-ink e-ink panel that
speaks the TRMNL device protocol. The page is drawn pixel by pixel into an
indexed framebuffer and served as a 4-bit indexed PNG.

The library under `src/` is written in Verus. Its own functions carry
contracts and are proved against them. The calls it makes into other
crates (chrono and chrono-tz for dates and time zones, rrule for
recurrence expansion, u8g2-fonts for glyph rasterisation, png for the
encoder) and into a few std functions (`str::to_uppercase`,
`str::to_lowercase`, `String::push`) go through small trusted wrappers:
their contracts restate what those crates document and are believed, not
proved. Each wrapper's doc comment names the function it calls.

- `render` — the indexed canvas, the six-ink palette, rectangles, lines,
  hatching, 4-bit packing and PNG encoding.
- `dashboard` — text runs and clipping, the page layout, the five panels,
  weather glyphs, budget flags, staleness markers and the footer.
- `data`, `status` — the snapshot the page is drawn from, per-source
  freshness, and how a fetch run is folded into the snapshot.
- `agenda`, `ical` — iCalendar parsing, recurrence expansion for one day,
  ordering and de-duplication of agenda rows.
- `alerts`, `budget`, `hosts`, `weather` — turning upstream readings into
  panel rows.
- `fetch` — the retry policy and the opted-out / failed distinction.
- `device` — the pieces of the device protocol that are pure computation.
- `clock`, `text` — calendar and string helpers.

`app/` holds the server itself: configuration, HTTP handlers, the upstream
requests and JSON decoding, and the background refresh loop. `tests/` runs
the library on concrete values.
