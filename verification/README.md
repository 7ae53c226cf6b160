# world

A verified library for a client of a 3.3.5a world server.

- `src/wire.rs`, `src/cursor.rs`, `src/protocol.rs`: bytes, layouts as
  mathematics, and the reader that is proved to follow them; the handshake and
  the character screen.
- `src/update.rs`, `src/movement.rs`: object updates and movement.
- `src/query.rs`, `src/quest.rs`, `src/spell.rs`, `src/combat.rs`,
  `src/trade.rs`, `src/trainer.rs`, `src/vendor.rs`, `src/taxi.rs`,
  `src/weather.rs`: the other packets, one subject each.
- `src/state.rs` and `src/state/`: the replicated world, how packets are folded
  into it, and the laws of that fold.
- `src/quest_cache.rs`, `src/spawns.rs`: what is kept between sessions, as the
  bytes of a file.
- `src/exact.rs`: where a layout's fields settle its end, no accepted body is
  the beginning of another.
- `src/codec.rs`, `src/text.rs`: what is taken on trust from zlib, SHA-1 and
  the standard library's text functions.

Floating-point values are carried as their bit patterns. What has to compute
with them, read a clock or touch a disk is in `app/`.
