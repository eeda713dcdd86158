# Styx sender

The sending half of a software KVM: it shares the keyboards and the mouse of a Hyprland
machine with a Mac on the same network. When the cursor enters a one-pixel surface at the
configured screen edge, the pointer and the keyboards are grabbed and their input goes to
the receiver, until the receiver gives the cursor back.

`src/` is the library: everything the sender decides, written in Verus with contracts.
`app/` is the program around it: the Wayland connection, the device nodes, the TCP stream,
the clipboard tools and `hyprctl`. `tests/` runs the library on concrete values.

## What is proved

- **Keys.** The keys that are down at the other end are the held ones, and once a capture ends
  none is left down there: neither a key pressed during the capture nor a modifier that was
  down when it began. Super+M is never forwarded. Keys that the compositor saw go down before
  the grab do not stay stuck.
- **Crossing.** Edges are aligned at their far ends (bottom, or right) and pixels map one to
  one; a cursor that comes back at the distance at which it left comes back at that pixel.
  Beyond the length of the receiver's edge nothing crosses.
- **Contention.** While the compositor keeps taking the pointer back, crossing pauses for
  300 ms, 1 s, 5 s and at most 30 s, on the session's side and on the surfaces' side alike.
- **Connection.** Heartbeats go at the active interval exactly while capture is active. After
  as many unanswered ones as the threshold, the next one due finds the connection dead.
  However capture ends, nothing of it is left.
- **Clipboard.** The richest content is offered, and the same content is neither sent twice
  nor echoed.
- **Wire.** What is read is what was written, however the stream of bytes is cut.

## What is believed

Calls into the `keycode` and `evdev` crates, and `str::to_lowercase`, `String::from_utf8` and
`String::push` of std, stand behind small functions whose contracts are not proved. Each says
in its doc comment what it claims.

## Units

The compositor reports lengths in 256ths of a pixel, and the library keeps them so. On the
wire they are floating-point numbers; the program converts. Times are nanoseconds on one
clock.
