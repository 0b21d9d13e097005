# mycelium_check

The driver around a Mycelium checking kernel, verified with Verus. It decides what is asked of the
kernel, aggregates what the kernel refuses, and says what a caller is told. The kernel's parser, its
checker and its diagnostic baseline, and the file system, stay outside: the library takes their
replies as plain values and is verified for every reply they can give.

`src/` is the library.

- `sources`: the exchange with the kernel over a set of sources, one by one.
- `diagnostics`: findings, and the report over a set of sources, ordered by file.
- `session`: the exchange with the kernel over one phylum, question by question, and the report that
  it ends in. The laws of the report stand here.
- `phylum`: the report on a phylum, and the verdict for each nodule by its import closure.
- `closure`: import closures.
- `syntax`: what is read of a parsed nodule, and types as the surface writes them.
- `json`, `output`: the report for a machine and for a reader, and how a mode ends.
- `distinct`: distinct reports have distinct JSON lines.
- `oracle`: the verdict on a single file.
- `project`: which files are the sources of a project, and what they are called.
- `resolution`: the exchange with the file system that resolves a project, failures included.
- `cli`: which mode the arguments select.
- `order`, `text`: stable sorting, and the building of texts.

`app/` is the command-line tool: it lists directories, reads files, runs the kernel and prints.
`tests/` runs the library against a small kernel and a directory tree in memory.
