# rmsc_core

A checker for Age of Empires II random map scripts (RMS), written in Verus:
the library states what each function does in `requires`/`ensures` and
Verus proves it.

What it checks: the type of every expression, that every name used is
defined, and whether it is defined *at the point of use*. Definitions are
tracked with a guard proposition per name (which `if` branches and which
`random` arms it was defined under). At a use, the name's proposition is
rewritten: each defined name in it is replaced by what is known of it, each
random arm by what the current guard knows of it, and the result is
simplified by the rules of propositions over names and arms. The use is
live when this gives `true`, dead when it gives `false`, and maybe-live
otherwise. `src/` states this procedure exactly, and `laws` proves it
sound with respect to valuations (which names are defined, which arm of each
random block is taken): a name found live is defined in every valuation that
agrees with the current guard and with the chances of the arms, and a name
found dead is defined in none. The law holds when every definition is in
disjunctive normal form (a name defined under several conditions gets a
disjunction), no definition depends on itself, and no two disjuncts of one
definition reach the same random block (there the chances of the arms are
merged, and a name defined in two arms of one block and used inside one of
them is reported dead). The guard lookup and the simplification of
conjunctions and disjunctions are proved sound on their own.

Scripts are read in two steps. `reader::lex` turns the characters of a
source into tokens (comments, literals, names, keywords and punctuation;
positions count characters); a word that starts with a lower-case letter
and is no keyword is a command, any other word a name. `parser::parse_file`
reads the tokens as statements: definitions, `#undefine`, both includes (a
path written as a word is put in quotes), sections, `if`/`elseif`/`else`,
`start_random` with its `percent_chance` arms (the chances adjusted as the
game does), commands with their arguments, and blocks in braces. An
unexpected token is reported and skipped. `reader::read_script` does both
and gives the `SourceFile` that the checker takes; `shape::body_checked`
tests that its statements have the shape the checker expects.

Layout of `src/`:

- `ast`, `token`, `lexer` — the syntax tree, tokens, and the lexing of
  comments, names, punctuation and literals.
- `reader`, `parser`, `shape` — reading a script into tokens and
  statements, and the shape of statements the checker takes.
- `prop`, `simplify`, `guard` — propositions over names and random arms,
  their simplification, and the guard of the current point of a script.
- `id_info`, `type_env`, `rms_error` — what is known of each name, the
  environment of a check, the errors found.
- `type_check`, `statement` — checking expressions and statements
  (includes, comments with ignore lists, `if`, `random`, sections,
  commands), each against a spec function that states it over values.
- `doxygen`, `text` — documentation comments and the string functions they
  need.
- `valuation` — the truth of propositions in a valuation.
- `laws` — properties of the library proved once for all inputs.

`app/` reads script files from disk (the script and the files it
includes) and holds the terminal reports of errors (through `ariadne`).
