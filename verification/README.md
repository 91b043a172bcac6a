# corust_tui

The application model of the corust terminal client, verified with Verus.

- `src/app.rs` — the model: conversation blocks, the input line with a byte
  cursor, the pending permission request, and how agent events, key presses
  and answers change them. Every operation's contract is stated over
  `BlockView`, the blocks as character sequences.
- `src/event.rs` — the events of the agent connection, as plain values.
- `src/text.rs` — UTF-8 widths and byte offsets, decimal numerals, whitespace
  trimming and line splitting, with their specifications.
- `src/ui.rs` — what the screen shows: status bar, conversation lines and
  styles, scroll position, input bar and cursor cell, and the screen layout.
- `src/channel.rs` — the reply channel of a permission request.
- `src/laws.rs` — properties across operations (undoing an edit, cursor moves
  that cancel out, toggling twice, chunk concatenation, answers to requests).
- `app/` — the unverified edge: converting agent-protocol messages, reading
  the working directory, and drawing frames with ratatui.
