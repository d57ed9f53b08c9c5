# qMonitor

qMonitor notices which game is being played, keeps the sessions in a local
database and pushes ended ones to a Questory service.

- `src/` is the library, written in Verus. It holds what the program decides:
  which processes are games, when a session begins and ends, what is stored and
  pushed and when, what the login exchanges, which releases are offered, which
  log files are deleted, and what the user is shown. Contracts and laws are
  proved.
- `tests/` runs the library with the crates that it calls.
- `app/` is the program around it: files, network, database, keyring, workers
  and the window, which needs Tauri.

The modules of the library:

| module | what it is about |
| --- | --- |
| `identity` | catalogs, the Steam library, fingerprints, and the pipeline that names processes |
| `detect` | processes, launch command lines, and the title that counts |
| `live_session` | the session that goes on |
| `db`, `persist`, `persist_laws` | the table of sessions, and what is stored when |
| `session`, `runtime`, `health` | the state of the application and of its workers |
| `auth`, `oauth_loopback`, `pkce`, `device` | the login |
| `push`, `web` | what is sent to the service, and addresses |
| `update_check` | releases |
| `config`, `host` | settings, and the system |
| `time`, `digest`, `random`, `number`, `text`, `split`, `order`, `search`, `keyed` | what the others are made of |
