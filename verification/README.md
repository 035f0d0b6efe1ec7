# telegram

The part of a Telegram bot that decides: how agent output becomes messages, which
topic a message belongs to and who answers in it, and when a live preview is
edited. It is written in Rust and verified with Verus.

- `src/` is the verified library.
  - `text`, `decimal`, `narration`, `html`: characters, numbers, noise in agent
    output, and what Telegram's HTML parser accepts.
  - `filter`: agent output as messages and as a preview. `message_laws` states
    what holds of them.
  - `config`, `topic`: which agent answers where, and how to send to a topic.
  - `protocol`, `channel`, `delivery`: requests to the Bot API, the right to post,
    and carrying requests out one after the other.
  - `stream`: the live preview of an answer.
- `tests/` runs the library.
- `app/` makes the requests.
