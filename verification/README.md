# json_log_parser

Formats Docker Compose style log streams: each line `name | content` is split
into its container and its content, JSON object content is read into the usual
fields (level, message, timestamp) plus the other fields, and each record is
printed as `[container] timestamp LEVEL: body` with colored container names
and levels.

- `src/` is the verified library (Verus): `parser` (line grammar, JSON record
  reading), `color_manager` and `format_context` (color and width state),
  `formatter` (the line layout), `log_entry`, `color`, `text`.
- `app/main.rs` is the command-line program around it (stdin, stdout, flags).
- `tests/` runs the library on concrete lines.
