# xscreen

xscreen casts media to DLNA/UPnP televisions: it finds them in the local network, hands them a
local file or a web address to play, and controls playback from a command line, from a window, or
from other programs through a bridge on this machine.

`src/` is the library, written in Verus: what is sent, what is read and what is decided, with the
contracts proved.

| Module | What it holds |
| --- | --- |
| `text`, `number`, `size` | taking text apart, decimal numbers, sizes for a person |
| `playback` | playback times and speeds |
| `weburl`, `xml` | URLs and XML, as the `url` and `quick_xml` crates read them |
| `device`, `discovery`, `listing`, `select` | descriptions of televisions, searching, listing and choosing them |
| `soap` | the requests that control a television, and its replies |
| `media` | serving a file: ranges, replies, addresses, counters |
| `cast` | casting one source, step by step |
| `command`, `bridge`, `console` | the command line, the bridge and the window |

`app/` is the program around it: sockets, files, the web servers, the window. `tests/` runs the
library on concrete values.
