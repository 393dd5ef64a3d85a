# mini_disco

A command-line tool for USB NetMD MiniDisc devices: list discs, upload audio
(single files, M3U playlists, prepared raw frames), rename, delete, erase,
group tracks and control playback.

The decisions and data handling are a Verus-verified library under `src/`:

- `device`: the data model, upload framing and padding, frame/time arithmetic.
- `m3u`: the playlist parser.
- `titles`: group ranges and the half-/full-width disc titles that carry groups.
- `netmd`: device selection, USB filters, disc flag and capacity checks,
  turning device readings into the data model.
- `audio`: encoder routes, OMA header removal, ffmpeg progress parsing and
  tracking, tool error details.
- `output`, `udev`: the text the program prints.
- `workflow`: track numbers, fallback titles, upload summaries, the progress
  line, and the step-by-step decisions of a playlist upload.
- `text`: verified string and character helpers the above rest on.

`app/` is the program around the library: argument parsing, USB and file I/O,
running `ffmpeg`/`atracdenc`, JSON output, and the async driver loops.
