# twitch_tui

The message and channel-list logic of a terminal Twitch chat client, verified
with Verus.

- `src/text.rs`: UTF-8 byte lengths and offsets of character sequences, and
  splitting text at a character.
- `src/style.rs`: colours, styles, spans and rows as plain values.
- `src/message.rs`: messages, highlighting of search matches and user names,
  emote placeholders, and the layout of a message into rows.
- `src/theme.rs`: the frontend settings that shape a message and the styles
  they select.
- `src/following.rs`: selection and key handling of the followed-channels list.
- `src/bindings.rs`: the calls into chrono, fuzzy-matcher, textwrap,
  unicode-width and memchr, with the contracts the proofs rely on.
- `src/proofs.rs`: properties that span several functions.
- `app/`: ratatui conversion, name colours (floating point), the emote
  loading loop and drawing.
