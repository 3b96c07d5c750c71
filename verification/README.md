# composeable_glue

Verified building blocks for partitioning storage, and the term store and
small languages of a term-rewriting interpreter, written in Verus.

- `src/composeable_storage`, `src/composeable_storage2`: alignments,
  counts, aligned lengths and their merging, bounds, units of information,
  layouts, and the storages that hand out pieces of memory (the state they
  keep and the arithmetic they do).
- `src/glue_interpreter`: the term store (`storage`), paths into terms
  (`index`), the lexer, parser and printer of the term syntax, rule patterns
  and their matching (`rule`), the constructors, and the languages `lang0`
  (a stack machine), `lang1` and `lang2` (which compile to it).
- `app/`: what touches raw memory, page mappings and standard output: the
  slices of RAM and the allocations that make and free them, anonymous page
  mappings, byte counts with `num-traits` arithmetic, and printing of terms.
- `tests/`: tests of the library.
