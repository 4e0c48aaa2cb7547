# pratt_parser

A toy expression language with a Pratt parser, verified with Verus.

```text
let f = (n) => if n <= 2 { 1 } else { f(n - 1) + f(n - 2) };
f(10) // 55
```

## Layout

- `src/` — the library, verified:
  - `lexer.rs`: source text to token trees; every lexing step is proved
    against `lex_token`, a specification of the token grammar.
  - `parser.rs`: a Pratt parser from token trees to expressions, proved
    against `parse_bp`; `law_infix_precedence` states how operators of
    different binding powers group.
  - `semantics.rs`: the meaning of expressions as a definitional
    interpreter over a model of the state (cells, variable frames, printed
    lines, cells being read).
  - `runtime.rs`, `eval.rs`: the interpreter; `Ast::eval` is proved to
    compute exactly what `semantics::eval` gives, and to keep the state's
    invariant.
  - `display.rs`: the prefix rendering of expressions.
  - `scope.rs`, `laws.rs`, `compare.rs`: laws of variable frames, of
    evaluation, and of comparisons.
- `tests/` — tests of the library.
- `app/` — the interactive prompt: reads lines, prints tokens and trees when
  the variable `debug` is `true`, evaluates and prints results.

Evaluation takes a budget: each loop iteration and each lambda call spends
one unit, and so does each level of an array or range that `==` or
printing looks into. `laws::law_fuel_eval` proves that a larger budget never
changes a finished evaluation. Operations that overflow, divide by zero, or
extend an array while it is being read end the evaluation with
`EvalError::Panic`; the prompt stops the program on them.
