# tutorial_generator

Turns the history of a git repository into a step-by-step tutorial, written in
Markdown or handed over for JSON output. The library is written in Verus and
its functions are proved against their contracts.

Layout:

- `src/text.rs`: trimming, line counting, decimal numerals, joining.
- `src/path.rs`: file names and extensions of paths; clone directory names.
- `src/language.rs`: language detection by extension; the sorted set of a
  repository's languages.
- `src/model.rs`: commits, changed files, the files a commit shows, and the
  repository record.
- `src/dates.rs`: a commit's calendar date, computed with `chrono`.
- `src/git_modes.rs`: the `git2` file modes that tree entries are tested against.
- `src/sections.rs`: grouping the history into sections, and what the grouping keeps.
- `src/tutorial.rs`: assembling the tutorial, its Markdown (header,
  prerequisites, sections with their code and key takeaways, conclusion) and
  its JSON record.
- `src/format.rs`: the output formats.
- `app/main.rs`: the command-line program; it reads the repository with `git2`,
  parses arguments with `clap` and serializes JSON with `serde_json`.
