# connector_sync

Page reads and resumable walks over a connected account's records, verified with Verus.

- `src/value.rs`: JSON values, JSON Pointer, and the calls into serde_json.
- `src/clock.rs`: the clock, the calendar, and the calls into chrono.
- `src/text.rs`, `src/textmap.rs`: text, numbers in text, and maps keyed by text.
- `src/pipeline/`: reading a page from a declaration of where a toolkit keeps things.
- `src/toolkits/clickup.rs`: the walk over a ClickUp account's workspaces.
- `src/toolkits/slack/`: the walk over a Slack workspace's channels and threads.
- `tests/`: the library seen from outside.
- `app/`: the asynchronous side, which runs the actions and keeps the walks.

No function of the library waits for anything. A read that needs a reply is split in two: one
function says what to ask for, another takes the reply. A function that looks at the clock has a
twin, with `_at` behind its name, that is told the time.
