# baan

Keyboard input expansion. A daemon watches the keyboard for tags such as
`<now/>` or `<greet>you</greet>`, runs the command that is configured for the
tag, and puts the command's output in the tag's place. Copying text such as
`greet:?you` runs a command in the same way and pastes its output.

- `src/` is the library, verified with [Verus](https://github.com/verus-lang/verus):
  the tag parser, the configuration, the filling in of commands, the keyboard's
  event loop and the injection of output, each with a contract, and the laws
  that hold between them.
- `app/` is the program around it: arguments, devices, the clipboard, processes,
  threads and signals. It does what the library tells it to do and reports what
  came of it.
- `tests/` run the library.

## Configuration

```toml
[baan]
flush_delay_ms = 100
clipboard_read_delay_ms = 120
clipboard_write_delay_ms = 80
command_timeout_secs = 15

[triggers]
now = ["date"]
greet = ["echo", "hello {}"]
json = ["sh", "-c", "curl localhost:8008 -d '{\"name\":\"{}\"}'"]
```

A `{}` takes the tag's content. In the script of a shell it becomes a reference
to a positional parameter, and the content follows as an argument of its own,
directly behind the script's `$0`, so it is never run as shell code. No two triggers may differ only by letter case.
A tag whose name has no lowercase letters is meant for a terminal.
