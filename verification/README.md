# aster

The tab model of the Aster browser shell on Linux, verified with Verus.

- `src/text.rs`: whitespace trimming, splitting, line breaking and decimal
  numbers on characters, with their specifications.
- `src/escape.rs`: escaping of titles and URLs for the state file, and the
  proof that decoding undoes it.
- `src/url.rs`: how typed text becomes a URL and a tab title.
- `src/state_file.rs`: the tab-separated state file, how it is read and
  written, and the proof that reading gives back what was written.
- `src/browser.rs`: the tabs, the active tab, and the operations on them,
  each with its contract and the invariant they keep.
- `src/shell.rs`: the page script, the messages the page sends, and what the
  window does on each.
- `src/platform.rs`: the commands, messages and host traits of a backend.
- `app/lib.rs`: the window (tao, wry), the state file on disk and the JSON
  exchanged with the page.
