# Nagare

Nagare follows playback on Emby, Jellyfin, Plex and AudioBookShelf, shows a
live subtitle timeline in the browser, and helps enrich Anki cards with
sentence audio, screenshots and source metadata.

The decisions are a Verus-verified library:

- `src/text.rs`, `src/json.rs`: string helpers and the JSON model that server
  replies are read from.
- `src/subtitle.rs`: SRT, WebVTT and ASS parsing, Japanese normalization and
  subtitle line matching.
- `src/config.rs`: settings, their defaults and normalization, path mapping.
- `src/media_server.rs`, `src/plex.rs`, `src/mediabrowser.rs`,
  `src/audiobookshelf.rs`: what the servers report, read from their replies.
- `src/session.rs`, `src/playback_sessions.rs`: which sessions are listed and
  followed, and which audio and subtitle tracks are used.
- `src/anki.rs`, `src/anki_poller.rs`: new-card detection, and the
  AnkiBeacon/AnkiConnect poller as a state machine (events in, actions out).
- `src/enrichment.rs`: what a card enrichment writes, and the order of its
  steps (audio, AVIF or screenshot, note fields, tags).
- `src/history.rs`, `src/review.rs`: the watch history (positions, writes,
  Tadoku candidates and the daily export schedule) and review cards.
- `src/mining.rs`, `src/tadoku.rs`: mining summaries and Tadoku batches,
  logs and login checks.
- `src/media.rs`, `src/api.rs`, `src/plex_websocket.rs`: media sources,
  ffmpeg arguments, and what the web API and the Plex websocket act on.

`tests/` exercises the library; `app/` is the server around it (HTTP and
websocket endpoints, polling loops, media server and AnkiConnect clients,
ffmpeg runs, the SQLite history).
