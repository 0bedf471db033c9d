# dsh_launcher

The core of the deepseek-harness launcher, verified with Verus: the managed MCP
block grammar of `cordis.patch.yml`, the `--dump-config` parser, skill frontmatter
surgery, skill scanning and import planning, validation rules, and the decisions
of plugin synchronisation, skill sharing and the TokenTracker dashboard.

- `src/` — the verified library. Every public function states its result in its
  contract; the laws that relate several calls are public proof functions
  (`law_*`), among them: rendering, parsing and rendering the MCP block gives the
  same bytes when each declaration carries the `serverName` of its config and a
  config whose non-blank lines are at least two spaces deep, with no `# == ` line,
  no carriage return before a line end, and no trailing whitespace at its end
  (`mcp::roundtrip`); normalising a `config` subtree
  is stable when it has a content line, no line indented less than the shallowest
  one and no non-blank line ending in a carriage return after its line ending is removed
  (`mcp::normal_form`); disabling then enabling a skill restores its file,
  and asking twice for the same state writes once (`skill::frontmatter`); the skill
  listing keeps every entry in rank-then-name order, so the first of a name has the
  highest rank (`skill::scan`); linking never replaces user content (`skill::sharing`).
  The TokenTracker start is decided by `tokentracker::start_decision`: a
  `tracker serve` already on 7680 is adopted (no second process, the dashboard
  stays on 7680); otherwise the process is spawned on the first free port from 7680.
- `src/json.rs` — `package.json` and `npm view --json` are parsed by `serde_json`
  behind one trusted wrapper; the tree is walked by verified code.
- `tests/` — tests on concrete values.
- `app/` — the command line (parsed by `cli::parse_command`; `skill status|apply|migrate`)
  and the file-system, git and process work around the library.
