# rowscript

A verified core of the RowScript compiler, written in Verus.

- `src/theory/mod.rs`: source locations, variables with identities drawn from
  an `IdGen`, generators of metavariable names, parameters and telescopes,
  and how they are printed.
- `src/theory/abs/data.rs`: core terms, field maps, printing, renaming of a
  variable, and lambdas over telescopes.
- `src/theory/abs/rename.rs`: renaming a term apart, every binder becoming a
  fresh variable of its name drawn from the supply.
- `src/theory/abs/def.rs`: definitions, methods, the global and local
  contexts, and how definitions are printed and unfolded into terms.
- `src/theory/abs/unify.rs`: the unifier, specified by `unify_steps` and its
  companions, with the laws it obeys (it only ever solves metavariables; a
  solved metavariable keeps its solution; a term without variables unifies
  with itself; more steps never change an outcome). `unify_within` runs it
  under a bound on nested steps.
- `src/theory/conc/elab.rs`: the parts of elaboration that work on core terms:
  hole insertion and metavariable creation.
- `src/error.rs`: errors, their messages and reports.
- `app/lib.rs`: printing reports with `ariadne`, converting `pest` and I/O
  errors, and growing the stack with `stacker`.

Not in the library: the translation of parse trees into concrete syntax, the
elaborator's checking and inference of expressions, the normaliser, and the
driver that loads and compiles modules. Their sources rest on types, a grammar
and modules that are not part of this code base (the concrete syntax `Expr`,
the module loader, the normaliser and the grammar of the surface language), so
they have no counterpart here. The unifier compares bodies under binders after
substituting one variable for the other, where a normaliser would also reduce
them.
