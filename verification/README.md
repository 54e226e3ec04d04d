# flowmango_terminal

The text model of a terminal panel for flowmango scenes, verified with Verus.

`src/` is the library; every function in it carries a contract that Verus proves:

- `ansi`: stripping CSI escape sequences and splitting command output into
  colored spans (SGR 16-color, 256-color and direct colors), keeping any UTF-8
  text outside the escape sequences whole;
- `color`: the ANSI palettes;
- `line`, `state`: scrollback lines with cached spans, the bounded scrollback,
  and the effect of a running command's output;
- `input`: line editing, cursor motion, history browsing and control keys, as a
  step function from state and key to state and the action the caller performs
  (for the prompt, and for the terminal object where Ctrl is a held modifier);
- `complete`: the completion query for Tab and choosing among candidates;
- `command`: what a submitted line does (`clear`, `pwd`, `cd`, or run it);
- `view`, `layout`: wrapping, row maps, the home directory shown as `~`, and
  where each visible row and the cursor come from;
- `laws`: properties that span several operations.

`app/` holds what Verus does not see: the canvas objects and their handlers,
the shell process and its output threads, the file system, and the pixel
geometry, which is floating point.

`tests/` runs the library on concrete inputs.
