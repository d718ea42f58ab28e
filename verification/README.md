# SimplicityHL language server

The logic of a language server for [SimplicityHL](https://github.com/BlockstreamResearch/SimplicityHL),
verified with Verus.

- `src/` is the library. It holds what the server decides: how positions and byte offsets relate,
  how a project and its dependencies are found, what a snapshot of an analysis says, where names
  lead, which diagnostics are published for which document, and what is completed, highlighted and
  shown. Each function states in its contract what it returns.
- `app/` is the program around it. It speaks the protocol over the standard streams, reads files,
  runs the compiler on a document and its imports, and hands the library plain values.
- `tests/` runs the library together with the compiler.

The file system is a value in the library: a search stops at the first thing it does not know of
the disk, says what it wants to know, and is asked again with the answer. Paths are texts with
slashes; `app/` turns the paths of the operating system into them and back.

What the library takes from other crates stands behind small functions marked as trusted: the
parser, the lexer and the jets of the compiler, ropes, and JSON. The comment above each says what is
relied on.
