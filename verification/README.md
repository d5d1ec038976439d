# relon_ir

The lowering pass of the Relon compiler: it turns the analysed syntax tree of an
entry module into stack-machine code for the code generators.

## Layout

`src/` is the library. Every executable function in it carries a contract that
says which instructions, which slots and which error its result holds; Verus
proves them.

* `ast`, `types`, `ir`, `error`, `module` hold the data: source trees, canonical
  types, instructions, errors, and lowered modules.
* `fragment` holds what lowering a piece of source gives: instructions, the type
  of the value they leave, and the counters, constants and closures behind them.
* `chain`, `range_loop`, `range_calls`, `materialize`, `list_literal`,
  `list_calls`, `comprehension` lower ranges and lists.
* `reference`, `index` lower names, paths, elements and entries.
* `variant`, `records` lower values against a type; `arms`, `matching` lower
  matches.
* `calls`, `native_import`, `stdlib` lower calls; `expr` dispatches on the
  expression.
* `decorators`, `field_refs`, `components`, `schedule`, `ref_cycle`,
  `emit_order`, `field_types`, `dict_plan`, `dict_body` plan and lower the fields
  of a returned dictionary.
* `canonical`, `shape`, `entry`, `workspace`, `lowering` plan and lower an entry
  module among the modules that it imports.
* `nested`, `levels`, `counted` tie the lowering of an expression to that of the
  expressions in it, by levels around a lowering or by a counter of levels.

`meaning` models the machine, its memory included, with the instructions that the
loops, lists and reads are made of; the modules beside it say what those compute:

* `meaning_pipeline`, `meaning_nested`: a pipeline folds its consumer over the
  elements behind its stages, and a nested reduction combines the folds of its
  rows.
* `meaning_lists`: a built list holds its length, and its elements in order.
* `meaning_reads`: reading a list gives the element at the index, or traps; a
  reduction of a bound list folds over its elements.
* `meaning_dict`: reading a dictionary gives the value of the entry with the same
  key, or traps.

`decided` says that lowering a module has one result, and that a module alone and
a workspace that holds only it give the same.

Four families of modules state what holds of all lowered code, for every
lowering of nested expressions for which it holds:

* `stack` and `neat_*`: code leaves exactly one value of the stated type and
  never reaches below it.
* `constants` and `constants_*`: every string constant is interned under its
  number, every host call names an import of the module, and every closure keeps
  the number that it was handed.
* `fresh` and `fresh_*`: code sets, allocates and numbers only what was handed
  out while it was lowered, so pieces side by side share no slot, and no let slot
  is set under two types.
* `depth` and `depth_*`: lowering an expression asks for nothing but its parts,
  so levels beyond those that an expression nests change nothing.

Theorems about the library are the public proof functions whose names begin with
`law_`.

`tests/` runs the library; `tests/execution.rs` also runs the lowered code on a
small machine. `app/` connects the library to floating-point literals and to
logging.
