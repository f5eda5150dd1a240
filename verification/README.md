# Ramiz

Ramiz makes ordinary Git worktrees cheaply: files that a worktree shares with an
existing one are cloned by the file system instead of being written again. This
crate holds its rules, verified with [Verus](https://github.com/verus-lang/verus).

## What it does

- `add` makes a worktree. A clean one keeps a clone only where it is proven to be
  what was committed; everything else is left to Git. An inheriting one carries
  over the complete state of another worktree of the same repository.
- `doctor` says whether a place supports such clones.
- `update` replaces the installation by a newer release, in the way of whoever
  installed it: Homebrew, Cargo, or a signed archive.

## Layout

- `src/` is the library. It decides and never acts: what it needs of the machine
  it asks for through a trait, and every contract speaks of the log of what was
  asked and answered.
  - `host.rs` is that trait for worktrees, `update/io.rs` the one for updates.
  - `add/` makes worktrees; `git.rs`, `fsclone.rs` and `inherit.rs` are its
    steps. `add/laws.rs`, `guarantees.rs`, `isolation.rs`, `proven.rs`,
    `recovery.rs` and `sequence.rs` state what holds of every run.
  - `update/` updates an installation; `update/laws.rs`, `guarantees.rs`,
    `intact.rs`, `owned.rs` and `apart.rs` state what holds of every update.
  - `outside.rs` holds the calls of other crates, with what is taken for granted
    of each.
- `app/` is the program around it: the command line, JSON output, processes,
  files, signals and HTTPS.
- `tests/` runs the library on machines made of maps.
