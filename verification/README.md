# prolly_s3_core

A version-control ledger over an object store: commits with immutable snapshots, branches and tags as
conditionally written references, sessions that commit many objects at once, structural merges, and
bounded jobs that check, repair, transfer, restore and collect.

The library decides; it does no input or output. Trees, references, payloads and clocks are handed to it
as plain values, and it answers with what is to be written or done next. Every function states what it
does, and Verus proves it. What holds across functions stands in proof functions whose names begin with
`law_`.

| Modules | What they hold |
|---|---|
| `ids`, `model`, `error`, `bytes`, `text`, `texts`, `ordered`, `tree`, `counters` | names, records, errors and the tools the rest is stated with |
| `keys`, `paths`, `version_key`, `inputs` | how entries, objects and requests are named |
| `repository`, `repository_v2`, `setup`, `authority`, `indexes`, `refs`, `tags`, `tickets` | an open repository and what it may do |
| `session`, `staging`, `writes`, `write_run`, `commits`, `publish`, `replay` | writing: from staged objects to a published commit, and requests that come again |
| `objects`, `snapshots`, `listing`, `history`, `diffs`, `caches`, `node_store`, `waiting_nodes` | reading, and the nodes behind it |
| `closure`, `closure_walk`, `merge_base`, `merge_plan`, `merge_build`, `merge_pages`, `merge_run`, `merge` | walking and merging histories |
| `batches`, `repair`, `repair_run`, `restore`, `restore_run`, `transfer`, `transfer_run`, `backup` | moving snapshots and histories |
| `fsck`, `fsck_run`, `pack_stats`, `inventory_laws`, `gc`, `gc_run`, `gc_laws` | checking and collecting |
| `outside` | the few calls that leave the library, with what is taken for granted of each |

`app/` runs the library against real services: it reads and writes what the library asks for. `tests/`
runs the library on concrete values.
