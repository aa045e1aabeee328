# minicc

A compiler for a small subset of C, written in Verus. The front end (lexer,
parser and variable resolution) accepts a single `int name(void)` function
with declarations, expression statements and `return`. The lowering to the
three-address form, and so code generation, handles only bodies made of
`return e;` items whose expressions use constants, unary operators and
non-assigning binary operators (`can_transform` tells whether a program is
one of them).

The library in `src/` is verified:

- `lex` — source text to tokens (`spec_lex`); tokens never span white space,
  and white space around or between tokens, in runs of any length, changes
  nothing (`lemma_lex_concat`, `lemma_lex_white_run`,
  `lemma_lex_leading_white`, `lemma_lex_trailing_white`,
  `lemma_lex_all_white`).
- `parse` — tokens to a syntax tree by recursive descent with precedence
  climbing (`spec_parse`); nothing may follow the function
  (`lemma_parse_rejects_trailing`).
- `sema` — variable resolution with unique names `x.n` (`spec_resolve`,
  `lemma_resolve_numbering`, `lemma_resolved_names_distinct`).
- `tacky` — lowering to a three-address form (`spec_transform`,
  `lemma_temporaries_per_operator`, `lemma_transform_temporaries`,
  `lemma_transform_fresh_counters`).
- `assembler` — x86-64 instruction selection, stack placement and fix-up
  (`spec_assemble`, `lemma_placement`, `lemma_fix_up`,
  `lemma_assemble_encodable`).
- `emit` — AT&T assembly text (`program_text`).
- `driver` — the stages at which the compiler stops.
- `text` — decimal rendering of integers.

The maps from source names to unique names (in `sema`) and from variables to
stack slots (in `assembler`) are lists of pairs searched from the most recent
entry, so a later entry for a name hides an earlier one, as an overwrite in a
hash map would. They are lists because their keys are strings: vstd
specifies `HashMap` well for integer keys, while with `String` keys its
operations verify but say too little to prove what lookups return.

`app/` is the command-line program: it runs the preprocessor and linker
(`gcc`), reads and writes files, prints the intermediate results and turns
the library's errors into messages.
