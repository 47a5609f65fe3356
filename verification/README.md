# au_engine

The serving layer of a knowledge-graph engine, in Verus. A daemon holds a knowledge base
of files, types and references; clients read it, subscribe to it and change it over a
socket. What is answered, sent and written is decided by this library and proved; the
socket, the disk, git and the parsers are outside.

## Layout

`src/` is the library. Everything in it is verified.

- `model`, `ast`: the knowledge base and parsed files as plain values.
- `text`, `paths`, `json`, `sorting`, `tally`, `paging`, `union_find`, `text_map`: what the
  rest stands on.
- `frames`, `encoding`, `codec`, `connection`, `socket`: the wire.
- `requests`: the reads. `diagnostics`, `listing`, `navigation`, `edges`, `neighborhood`,
  `instances`, `tokens`, `config_read`, `values`, `graph/`, `commits/` answer them, `render`
  gives the answers their form.
- `channels/`, `commits/recent`: the subscriptions, as states that are told of each rebuild.
- `mutation/`: the changes. `handle` judges a mutation and gathers what it needs, `script`
  orders its steps, `edits` says what each file gets, `response` answers it. `typerefs` finds and renames the mentions of a
  type, and `renaming` shows what a rename leaves behind.
- `saga/`: committing a change over several working trees, rolling it back when a part of
  it fails, and recovering from a crash. `laws` and `disk` show that a refused change leaves
  every file as it was.
- `resolve`: bringing the dependencies in.

`app/` is the daemon around the library: it owns the socket and the tasks, reads and
writes files, runs git, and asks the other parts of the engine for what only they know.

`tests/` runs the library.

## What is taken on trust

That `String::push` appends a character, what `String::from_utf8` accepts, and that the
`Debug` form of a text depends on the text alone. Of `serde_json`: that what it reads
depends on the bytes alone, what a `Value` holds, and how a value without fractions or
signs is written, with the keys of its objects in order.
