# nwg-common

The shared library behind a dock, an app drawer and a notification daemon for
Hyprland and Sway.

`src/` is the library. It decides and computes, and every function in it states
what it does in a contract that Verus proves:

- `compositor`: which compositor runs, what to send to Hyprland and Sway, and what
  their answers and events mean.
- `hyprland`: Hyprland's sockets and its event stream.
- `desktop`: `.desktop` entries, application directories, categories, icons and
  preferred apps.
- `config`: XDG directories, what stylesheets import, and when to reload them.
- `launch`: how a command line becomes a process.
- `pinning`, `process`, `signals`, `layer_shell`: the pinned list, command lines of
  running processes, real-time signals, and backdrops.
- `text`, `number`, `path`, `json`, `encoding`, `shell`, `error`: what the others
  are made of.

What the library relies on without proof is in `json`, `encoding`, `shell`, `signals`
and `text`: each such item is marked `external_body`, `external_type_specification` or
`assume_specification`, and says in its comment what it takes for granted.

`app/` is the outside: sockets, files, processes, signals and GTK. It asks the
library what to do, does it, and hands back what came of it.

`tests/` run the library on concrete values.
