# lci

A LOLCODE interpreter whose library is verified with Verus.

- `src/` is the library: preparing the text (`source`), the lexer
  (`lexer`), the tokenizer (`tokenizer`), the parser (`parser`), runtime
  values (`value`) and the interpreter (`interpreter`), with errors and
  their exit codes in `error`. Each stage is specified by spec functions,
  and its executable code is proved to compute them. `replay`,
  `error_blocks`, `scoping` and `line_breaks` hold laws that span the
  stages.
- `app/` is the command line: it reads files and standard input, prints
  what the program writes, and answers the interpreter's requests.

The interpreter does no input or output itself. A run goes until the
program ends, fails, needs something only the caller can supply (a line of
input, or a conversion of a single precision float), or uses up its fuel.
The caller then answers the request, or grants more fuel, and runs the
program again from the start with all the answers so far. `replay` proves
that this is sound: a later run writes at least what an earlier one wrote,
and ends the same way unless the earlier one stopped for want of fuel or of
an answer.
