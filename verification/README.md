# engit

`engit` is a command-line tool for Envoy repositories: semantic-version
tagging, GitHub releases, changelogs, repository maintenance, bundle
publishing, bundle checkout updates and named stack publishing.

The decisions the tool makes are kept in a library whose behaviour is stated
in `requires` / `ensures` contracts and proved with Verus.

## Layout

- `src/` — the verified library.
  - `text`, `path`: character-level text and path primitives with their
    models (`Seq<char>`, path components).
  - `semver`: parsing, rendering, ordering and bumping of semantic versions.
  - `git`, `tag`, `changelog`, `status`, `web`, `search`, `editor`,
    `github`, `cli`: the repository commands, written as functions from the
    results of `git` / `gh` invocations to the text shown or the error
    returned.
  - `release`, `pull`, `cleanup`: the commands that alternate `git` / `gh`
    calls with decisions, written as state machines (`release_next`,
    `pull_next`, `cleanup_next`) from a state and the outcome of the last
    call to the next call, the lines to print, and the result.
  - `publish`: bundle publishing — token expansion, destination and version
    checks, include/exclude selection with `globset`, the sorted and
    collision-free file list, and the publish plan.
  - `walk`: the walk of a publish source — what it does with each entry
    (skip, follow a link, descend, collect), the files it keeps (none under
    an excluded directory) and their path order.
  - `staging`: putting a bundle publish in place from its staging paths,
    and removing the staging when a step fails.
  - `framework`: named stack publishing, including the state machine that
    keeps the previous `latest` link when a step fails.
  - `cache`: bundle cache validation and prune selection.
  - `glob`: the calls into `globset`, with the contracts the rest relies on.
- `tests/` — tests of the library on concrete values.
- `app/` — the executable: argument parsing, processes, files, archives,
  serialisation, and the Envoy runtime calls.
