# codeindex

A code index whose rules are verified: how documents become entities and
representations, how a run is carried to publication, how models are resolved and
their inputs rendered, how candidates are filtered, ranked and fused, and how the
daemon and the command line decide what to do.

- `src/` is the library. Everything in it is written in Verus: each function states
  in its contract what it returns, and the public proof functions state what holds of
  several of them together.
- `tests/` runs the library on concrete values.
- `app/` is the `codeindex` command: argument handling, files and processes, the
  database, the network, inference, and the daemon's streams.

## Modules

| Module | What it decides |
|---|---|
| `model`, `names`, `path`, `text`, `text_map`, `utf8`, `lines`, `order`, `replace`, `json`, `hashing` | The vocabulary of the index, and the texts, paths and orders that the rest is stated over. |
| `source`, `source_fs` | Workspaces, snapshots and their revisions: in memory, laid over each other, and on disk. |
| `indexer` | Identity of entities, staged documents, the machine of a resumable run, and the machine that embeds what a space lacks. |
| `embedding` | Model references, lockfiles, semantic contracts, prompts, batches and token ids. |
| `query`, `search` | Filters, selectors, ranking, fusion and relation expansion. |
| `config` | Project discovery, folder overrides and the registry of projects. |
| `daemon`, `cli` | Frames, requests, jobs, the shape of a search and of its results, and the arguments of the command line. |
| `lsp` | What a language server is asked, and what its answers come to. |

Similarities and weights are floating-point numbers. The library carries them by their
bits, orders them, and takes the arithmetic on them as a function.

What the library takes from other crates stands in small functions whose doc comments
name the function called and say what is claimed of it.
