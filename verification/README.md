# dsh_desktop

The core of DeepSeek Harness Desktop, a native shell that starts the
harness's `dsh web` server, waits for it to announce its loopback URL and
hosts that URL in a webview, with a status panel beside it.

`src/` is the library, verified with Verus:

- `backend` — the announced URL, Node version directories, the Windows
  extended-length prefix, the order in which a backend is chosen, and the
  state of a start being watched (what is shown, what is kept for the error
  report, when the start has failed).
- `usage` — session metrics read from the harness's session cache, the
  account balance, the API key in the credentials file, the balance cache and
  the panel's snapshot.
- `portable` — reading the records of the bundled runtime.
- `paths` — paths joined per platform, the directories searched for Node and
  the roots searched for a bundled backend.
- `panel`, `window`, `splash`, `logging` — menu commands, the window's URL,
  the scripts sent to the splash window, the log's location.
- `text`, `order` — string and ordering helpers the others are proved with.

`app/` is the Tauri application around it: windows, processes, files and
the network.
