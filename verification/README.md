# merry_tui

The verified core of a terminal user interface for a coding agent. The rules of the interface are
in `src/`: executable Rust whose contracts are proved by Verus. How styled text is wrapped, cut and
split into inline code is left to what draws it.

- `src/` — the library. `input`, `history`, `completion` and `composer` hold the text that is
  typed; `keymap`, `controller`, `effects`, `dispatch`, `script`, `runner`, `mouse`, `event_loop`, `setup`
  and `startup` decide what keys and events lead to; `overlay*`, `provider_*`,
  `reasoning_picker` and `command_details` are what lies over the conversation; `plan*` is the
  plan pane; `projector`, `tool_output`, `patch`, `process_output`, `timeline*`, `transcript`,
  `markdown`, `highlight` and `command_style` turn what a run reports into lines; `layout`,
  `render` and `ui` place them; `preferences`, `input_history_store` and `clipboard_image` are the
  rules for what is stored and pasted.
- `tests/` — tests on concrete values.
- `app/` — the terminal, the clipboard, files and tasks around the library. The session and the
  providers belong to the program that embeds it, which implements `Host`.

The library decides and `app/` performs: work that takes several steps outside is handed out as a
`Script`, with a rule for the failure of each step.
