# rust-find

A verified core for `find`: file hierarchies are walked, and an expression of predicates is
evaluated on each entry.

```text
find [-H | -L | -P] [-d] [-x] path ... [expression]
```

`src/` is the library, written and proved in Verus. It does no input or output.

| Module | Content |
| --- | --- |
| `text` | characters, words, decimal numbers |
| `time` | points in time |
| `glob` | shell globs and their laws |
| `pred` | the expression tree |
| `operand` | operands of `-size`, `-mtime`, `-maxdepth`, `-mindepth`, `-type` |
| `error` | what can be wrong with an expression |
| `parse` | the grammar and its parser |
| `spelling` | how expressions are written, and that they are read back |
| `options` | options for the whole traversal |
| `eval` | evaluation on one entry |
| `semantics` | laws of evaluation |
| `command` | the command line, the traversal's plan, the exit code |

What only the file system can tell or do is asked for. The parser stops at the operand of `-newer`
until its modification time is supplied, and `eval` returns a request until it has a reply. `app/`
holds the program: it walks with `walkdir`, looks up, prints and removes as the library asks, and
takes each step up again with what came of it.

Three things are accepted and have no effect on the walk: `-prune` does not stop the descent into a
directory, `-x` does not keep it on one device, and `-H` does not differ from the default.
