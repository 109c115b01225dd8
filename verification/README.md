# mcp-native-core

The core of a local server for the Model Context Protocol, verified with Verus.

The server offers three tools over standard input and output:

* `fast_search` searches the files under a directory, line by line, by a regular expression or by
  another registered backend.
* `parse_structure` gives the declarations of one file.
* `semantic_search` ranks windows of lines by how close they come to a query in meaning.

## Layout

`src/` is the library. Everything in it is verified.

| Module | What it holds |
| --- | --- |
| `text`, `paths`, `json`, `schema` | texts, paths, JSON values and schemas |
| `path_table`, `cache`, `dir_cache`, `crawl_laws`, `content` | the caches and the crawl |
| `patterns`, `extractors`, `search_backend`, `registry` | what is searched for and extracted |
| `chunks`, `quantizer`, `vector_cache`, `ranking`, `embeddings` | windows, vectors and their index |
| `watcher` | what is watched, and how changes reach the caches |
| `mcp`, `fast_search`, `parse_structure`, `semantic_search` | the protocol and the tools |
| `repeat_laws` | what a second search gives |

`app/` is the program: it reads and writes files and streams, runs the tasks, loads the model, and
does the floating-point arithmetic. The caches are plain values; the program puts a lock around
each.

`tests/` runs the library.

## What is taken on trust

The library calls `regex`, `dashmap` and a few functions of the standard library through small
wrappers. What a wrapper's contract says of the call is believed; the comment above it says what
that is.

## Settings

* `MCP_EMBEDDING_MODEL_DIR`: a directory with `config.json`, `tokenizer.json` and
  `model.safetensors`.
* `MCP_EMBEDDING_MODEL_ID`: the id of a model on the hub, by default
  `sentence-transformers/all-MiniLM-L6-v2`.
* `MCP_VECTOR_CACHE_MAX_BYTES`: the budget of the index of vectors, by default 128 MiB.
