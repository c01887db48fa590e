# pods

The verified core of a desktop front end for Podman containers. The library
holds the decisions and text the user interface shows, each function with a
contract proved by Verus:

- `status`, `actions`: styles and icons per container state, which lifecycle
  actions a state allows, and what bulk operations ask of each container.
- `markup`, `markup_tags`: rendering of raw ANSI-colored log lines as Pango
  markup, with the attributes carried from line to line; the tags of every
  rendered line are proved well nested. Printed characters are copied as
  they come, not escaped, so a log line that itself holds `<` or `&` can
  still make the markup invalid.
- `term`: the escape-sequence parser (`vte`) and the UTF-8 conversions that
  the decoders call.
- `log`: the log view's bookkeeping: timestamps per line, where following
  resumes, batches of older lines, search start positions, scrolling.
- `processes`: keeping the process table in step with the engine's reports.
- `creation`, `parse`: the settings of a container-creation request.
- `properties`, `text`, `commit`, `files`, `containers`, `rename`, `stats`,
  `tty`: labels, addresses, name ordering, dialogs and small state machines.

`app/` holds what the library leaves to its caller: localized texts and the
serialisable form of a mount.
