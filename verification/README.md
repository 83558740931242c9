# fluxtex

A collaborative LaTeX editor with live PDF preview, whose core is verified
with Verus.

- `src/` — the verified library: the CRDT-backed document buffer
  (`buffer`, `crdt`), the text-diff replay that turns local edits into sync
  messages (`diff`, `network`), the collaboration session state machine
  (`collab`) and the signaling client's decisions (`client`), the signaling
  relay's room table (`signal`), the LaTeX line highlighter (`highlight`),
  the sidebar outline, project tree and counts (`outline`), the editor
  shell's themes, labels, menu reducer and file watch (`editor`, `menu`),
  the Tectonic helpers (`compiler`), preview pages (`pdf`), replica ids
  (`ids`), and string facts (`text`).
- `app/` — the program around it: the floem window, the WebSocket relay
  (`fluxtex signal`) and client, the WebRTC transport, the compile worker,
  PDFium rendering, the wire formats and the macOS menu bar.
- `tests/` — tests of the library on concrete values.
