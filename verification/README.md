# Kindra

`kin` manages stacked git branches: it rebases what depends on a commit, moves, splits and reorders
branches, pushes a stack in one go, keeps worktrees, and undoes what it did.

- `src/` is the library. It decides what is done, and Verus proves that each decision is the one its
  contract states. It knows commits as a graph of ids (`graph`), branches as names with tips (`stack`),
  and what git prints as text.
- `app/` is the program: it reads the repository, calls `git`, asks the user and keeps state on disk.
- `tests/` runs the library on concrete values.

The commands stand in `src/commands/`, one module each; those that alternate between decisions and
calls of git are step machines, whose order of steps is stated and proved (`law_...`). What several
commands share stands beside them: the rebase of several branches (`rebase_utils`, `rebase_loop`), the
log of operations (`oplog`, `oplog_restore`), local overrides (`overrides`, `overrides_flow`), floating
branches (`floating`), branches that hang together (`component`), merged history (`boundary`), managed
worktrees (`worktree/`), where the checkout is (`head`), and text (`text`, `names`). Paths are texts with
`/` between their parts.

What is not proved is listed where it is used: the few functions that call another crate carry a doc
comment which says what is taken for granted of it.
