# smpl

The front end of SMPL, a small statically typed language, with the runtime
support of its interpreter, verified with Verus.

Modules of `src/`:

- `tokens`, `span`, `parse_base`, `expr_parser`, `parser`: the token model and a
  recursive-descent parser from tokens to the syntax tree of `ast`.
- `expr_flow`: flattening of expression trees into temporaries in execution order.
- `types`, `type_checker`: the types of expressions and the checking of function
  bodies; `type_cons`: type constructors and their application to arguments.
- `control_flow`: the control-flow graph of a function body (on a `petgraph`
  graph) and the check that every path returns; `traversal`: a linear walk over
  such a graph, as the events a passenger is told of.
- `program`: checking of a whole program of modules.
- `value`, `env`, `vec_builtins`: run-time values, the variable environment (a
  store of cells, with handles that share them) and the built-in `vec` module
  (its names are rendered with `strfmt`).
- `eval`: evaluation of a flattened expression, temporary by temporary; a float
  operation or a call is not performed there but returned as what remains to be
  done, for the caller to perform before the evaluation resumes.
- `interp`: one step of running a function's control-flow graph: where a node
  leads, the loops being run, and what a basic block does to the environment
  (assignments to a variable or to a field path of it). Driving these steps over
  a whole program, with calls between functions, is not part of the library.
- `byte_code`: the instruction set of the byte-code back end.
- `error`: the errors of analysis.

`app/` holds what the library leaves out: reading float literals and arithmetic
on float values.
