# embedded_video

Plays a video inside a terminal: `mpv` draws it with the kitty graphics protocol,
and this crate decides where it stands, how `mpv` is started and reached, and what
is done to its output. The decisions are verified with Verus; `app/` runs the
processes, sockets and threads around them.

- `src/kitty.rs`: the rewriting of graphics commands in the output of `mpv`, so
  that images lie above the text of their cells.
- `src/geometry.rs`: the panel, the inset of a thumbnail, the place in fullscreen.
- `src/player.rs`: the state of the player, the actions of each operation, the
  direct URLs of the current video, and the arguments of `mpv`.
- `src/streams.rs`: the stream URLs that `yt-dlp` resolves in the background.
- `src/ipc.rs`: requests to a running `mpv`, and its replies.
- `src/keys.rs`: the names of keys.
- `src/text.rs`, `src/ascii.rs`: decimal numbers, white space, bytes.

Proof functions whose names begin with `law_` state what holds of the crate as a
whole.
