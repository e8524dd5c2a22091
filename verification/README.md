# MouseShare

Share the mouse, the keyboard and the clipboard between computers on a LAN. One machine, the
**primary**, has the real mouse and keyboard; push the cursor over the edge of its screen and it
appears on the neighbouring machine, and the keyboard and the clipboard follow.

`src/` is the library: everything that MouseShare decides and computes, proved with Verus. `app/` is
the program around it: sockets, files, the pasteboard, the event tap and the window.

| Modules | What they hold |
| --- | --- |
| `geom`, `text` | lengths, ratios and fractions as whole numbers; texts |
| `layout`, `machine`, `config` | where the screens are, whose they are, what is remembered |
| `capture`, `control` | what input is reported, who gets it, when control changes hands |
| `protocol`, `network`, `hub`, `discovery` | messages, frames, routing, and what a message calls for |
| `clipboard`, `clipfile`, `base64`, `safepath`, `transfer`, `walk` | text and file copies |
| `i18n`, `strings`, `activity`, `canvas`, `window`, `typeset`, `ui` | what the window shows |

Lengths and positions are in sub-pixels (65 536 to the pixel), scales and speeds in millionths,
places along an edge in parts of 2^32, times in milliseconds. Functions take the state and what
happened, and return what has to be done; the program does it.

Two things are taken on trust, and are marked where they stand: that `String::push` appends the
character (`text`), and that lenient decoding depends on the bytes alone and takes valid UTF-8 for
what it encodes (`clipfile`).
