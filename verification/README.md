# starbase

Credential setup for a development machine: `starbase setup secrets` walks through up to
three steps.

1. **npm**: asks for an npm token and sets it in `~/.npmrc`.
2. **ssh**: asks for SSH identities, adds a `Host` entry for each to `~/.ssh/config`, and
   keeps them on record in `~/.config/starbase/ssh-identities.toml`, by alias.
3. **docker**: asks for a registry and a username and runs `docker login`.

`--steps npm,ssh` runs only those steps. `--dry-run` says what would happen and changes
nothing.

## Layout

- `src/`: what the steps decide and compute, verified with Verus. `text` holds the model of
  text that the contracts speak of (white space, lines, words); `count`, `npm`,
  `ssh_config`, `identities`, `ssh_step`, `docker` and `steps` hold the functions and their
  contracts; the `_laws` modules and the `law_` functions hold what is true of them together.
- `app/`: the command line, the questions and the files.
- `tests/`: the library at work on concrete values.
