# vcs_provider

The host side of an experimental, read-only protocol (version 0.1) for external version control
providers. A provider is a separate process that answers JSON-RPC 2.0 requests over its standard
input and output; it reports the status of a workspace and serves immutable file baselines and,
optionally, history. The host edits files, shows diffs and never writes to the provider.

The library in `src/` holds everything that decides: framing, message classification, validation of
answers, the steps of each exchange, and the adaptation to object identifiers, change lists, history
views and a project's list of repositories. It does no I/O: a function either answers at once or
says which request comes next and what to do with its answer. Each function is verified with Verus
against its contract, and the public functions named `law_...` state what holds across functions.

| Module | Subject |
| --- | --- |
| `text`, `path`, `order` | strings, path rules, the order of paths |
| `error` | every error and its words |
| `frame`, `json`, `request`, `transport` | frames, JSON values, requests, what messages mean |
| `model` | snapshots, references, commits, and their rules |
| `client`, `content`, `contents` | a session, content, batches of baselines |
| `oid`, `repository`, `history`, `changes`, `commit` | a repository as a host uses it |
| `status`, `operation`, `store` | file status, refused operations, a project's repositories |

`app/` runs providers as processes and drives the library over their pipes. `tests/` exercises both
the rules and whole sessions with a scripted provider.
