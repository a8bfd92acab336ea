# notes-cf

A lecture-notes service on Cloudflare Workers: recordings are uploaded as
`multipart/form-data`, each is transcribed a minute at a time, the transcript
is cleaned up and summarized by a language model, and a page lists the notes.

The logic is a Verus-verified library under `src/`:

- `search`: substring search (`memchr::memmem`) and its specification.
- `multipart`: the boundary marker, the parts between markers, a part's
  field name (`regex`) and content; no part contains the marker.
- `wav`: scanning a WAV header for its PCM format and data chunk, and framing
  a stretch of audio as a WAV file of its own, which scans to the same layout.
- `workflow`: the chunk plan (chunks tile the data) and the processing
  workflow as a state machine whose every step is specified.
- `notes`: the upload counter, storage keys, complete notes, previews.
- `text`: decimal text of integers, read and written by std.
- `prompts`: the model instructions and chat messages.

`app/` holds the worker around it: routing, the Leptos page, the upload
handler and the workflow binding, which perform the I/O that the library's
functions decide on.
