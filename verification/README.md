# braird_sync

The sync core of a reading-notes client, written in Rust and proved with Verus.

The library decides; the program around it does the work. Every rule that a sync, an import or a
local write follows is a function from plain values to plain values with a contract, and what the
rules promise together is stated as a public proof function whose name begins with `law_`.

## Layout

| Module | What it holds |
| --- | --- |
| `outbox` | folding queued writes together before they are pushed |
| `pull` | merging pulled pages, the cursor, one table at a time |
| `session` | the order of a pull, its reconciliation and a flush |
| `engine` | who may sync, and what the host is told |
| `notes` | the rows that local writes are enqueued as |
| `signals` | a note's counters, their changes and their tombstones |
| `annotations` | replacing the handwritten margins of a note, and what deleting a note does to them |
| `export`, `import`, `round_trip` | archives: written, read, and what comes back |
| `merge`, `importing` | merging an archive into the local rows |
| `embed` | a pass of the embedder over the notes that wait |
| `http` | requests to the server, and what its answers mean |
| `tables`, `columns`, `mirror`, `types` | the synced tables and rows |
| `json`, `json_text`, `text`, `calendar`, `tags` | values |

`app/` holds the store, the network, the keys and the floating-point scores around the library.

## What is trusted

The library calls `serde_json`, `reqwest`, `base64`, `time`, the clock and the `Debug` form of texts
of the standard library through small functions marked `external_body`. Each says in its doc comment which function it calls and what it claims.
