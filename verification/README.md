# macrdp

The logic of an RDP server for macOS, verified with Verus.

- `src/` is the library. Each module holds one part of the server: the clipboard
  (`clipboard`, `dib`, `utf16`, `file_promise`), the screen (`capture`, `cursor`,
  `pixels`, `videotoolbox`, `virtual_display`), sound (`audio`, `aac`), input
  (`input`, `switcher_hud`, `runloop_thread`), redirected devices (`usb_redirect`,
  `rdpdr`, `smartcard`, `ifd`, `camera`), and the program around them (`config`,
  `auth`, `tls`, `logging`). `wire`, `text` and `paths` are shared.
- `tests/` runs the library, and the outside crates that it calls, on concrete
  values.
- `app/` is the program: system calls, sockets, files, floating point and the
  server's traits. It performs the actions that the library decides on and hands
  the outcomes back.

Where system work and decisions alternate, a module holds a state machine: a
function from state and event to next state and action. The proof functions named
`law_..` state what holds across calls.
