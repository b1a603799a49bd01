# Oriel

Oriel turns captioned long-form video into timestamp-grounded evidence for
people and agents: a YouTube URL becomes a compiled, content-addressed
source whose passages can be read whole or searched for a moment, with
provenance, coverage and cache state reported alongside.

## Layout

- `src/` is the verified library. Every function in it carries a contract
  that Verus proves, but for the cancellation token's methods, whose flag
  is shared with other tasks and so promises nothing on its own.
  - `text.rs`: characters, words, numbers and lines.
  - `source.rs`: resolving a URL to one canonical source.
  - `evidence.rs`: the evidence model.
  - `compile.rs`: validating acquired captions, compiling them into
    evidence with a SHA-256 version, revalidating stored sources (fixture
    sources under their own recomputed version), and
    grouping caption fragments into passages.
  - `fixture.rs`: the deterministic tab-separated fixture format.
  - `search.rs`: lexical retrieval and its ranking.
  - `engine.rs`: evidence and transcript packets, and the decisions that
    resolve a request through the cache and the provider.
  - `store.rs`: the cache's layout and the rules for serving, reusing,
    upgrading or refusing stored versions.
  - `provider/ytdlp.rs`: the `yt-dlp` provider's decisions: arguments,
    metadata checks, caption selection, JSON3 reading, stage outcomes.
  - `cli.rs` and `mcp.rs`: the command line's grammar and the bounds of
    the agent tools.
  - Laws that span functions are public proof functions named `law_*`.
- `app/` is the program around the library: process and file I/O, JSON
  (de)serialisation, the MCP server and `main`.
- `tests/` runs the library on concrete inputs.
