# fi

`fi` is a feature-branch workflow tool: it creates branches or worktrees from
Jira issues, opens and culls worktrees, and creates the pull requests of a
feature branch, with conflict-resolution branches for targets it cannot merge
into cleanly.

The crate is split in two:

- `src/` is the library, verified with Verus. It holds the rules of the tool:
  template rendering and escapes, branch-name rendering and parsing (with the
  round trip between them proved), the configuration model, hook selection
  and environments, reading `git` and `gh` output, what each PR target needs,
  the orders in which worktrees and issues are offered, and the fixes applied
  to generated fish completions.
- `app/` is the `fi` program around it: argument parsing, prompts, running
  `git` and `gh`, the Jira REST calls and reading `fi.yaml`.

`tests/` exercises the library on concrete values.
