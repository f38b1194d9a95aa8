# scalp

A declarative parser of command lines whose core is verified with Verus.

## Layout

- `src/` — the verified library:
  - `convert.rs`, `case.rs`, `ascii.rs`: conversions between ways of writing
    names (pascal, camel, snake, kebab, …), with laws such as the
    idempotence of the separated forms.
  - `spell.rs`: the distance between words and the suggestions of close
    names, stably sorted by distance.
  - `meta.rs`: the description of a command line (`Meta`), its texts, its
    visible parts and its built-in options.
  - `parse.rs`: names, keys and arguments as the parser reads them.
  - `finder.rs`: the search of the descriptions for the next key of the
    command line (options, verbs, positions, groups of short options,
    built-in options, suggestions for unrecognized arguments).
  - `context.rs`: the regular expressions and types that a node asks of a
    value, how an option's value is read from its argument, what missing
    values and leftover arguments come to, and the errors about values.
  - `render.rs`, `style.rs`, `help.rs`: the help text, its layout and its
    decoration, and the answers of the version and author options.
  - `error.rs`: the errors and their messages.
  - `utility.rs`: the names shown for the types of values.
- `app/` — ordinary Rust around the library: the `Parse` combinators and
  their context, the parsers and their builders, the terminal style, and
  what errors say to the user.
- `tests/` — tests of the library on concrete values.
