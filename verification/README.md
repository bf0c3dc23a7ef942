# git-why

Shows the recorded evidence behind a line of code: the commit that last
changed it, the commits of its history, the reason their messages record,
and the issues they reference.

The library under `src/` is verified with Verus:

- `text` — character classes, trimming, splitting into lines, decimal numbers;
- `git` — targets `FILE:LINE`, blame and log output, choosing the evidence commits;
- `evidence` — commit metadata, the recorded reason, issue references;
- `remote` — the GitHub repository named by the `origin` remote;
- `paths` — lexical path normalisation and the target's path in the repository;
- `command` — what a Git command's outcome means, and bounded reading of its output;
- `analysis` — the steps of one analysis, from the target to the report;
- `output` — the report as sanitized text for a terminal;
- `model` — the report.

`app/` holds the command-line program: argument parsing, running Git,
reading the file system, and the JSON encoding of the report.
