# Project Time Manager

A time tracker that measures the time spent on each project: which applications,
browser sites and links were in front, under which project stages, and what that adds
up to in reports.

## Layout

- `src/` — the library, verified with Verus. Every public function states what it
  returns or changes in `requires`/`ensures` over spec models (`Seq`, `Map`, views of
  the records), and the public proof functions named `law_*` state what holds across
  calls: the tracker stays consistent while it starts, pauses, samples and stops; a
  sample adds its second to the application, site and link it saw, once each; excluded
  parts count for nothing in a report and lose no data, and every stage mirrors the
  project's applications, sites and links, excluding what the project excludes; reports list each stage once
  and their applications and sites longest first; the settings read back what was
  written; one stage move swaps two neighbouring stages, and moving a stage up and down
  again restores the order; normalizing a project, or sanitizing a file name, a second
  time changes nothing; a new time set by hand is spread over the sites so that the
  parts add up to it.
  - `models` — the records (projects, applications, sites, links, stages, sessions).
  - `tracker`, `tracking` — the recording state machine and what a sample adds.
  - `edits`, `create`, `timing`, `normalize`, `structure` — changes to a project.
  - `store`, `categories`, `listing`, `migration`, `paths`, `names` — the data set,
    its settings and file names; `assembly` — stored rows grouped back into records.
  - `report`, `stages`, `timeline`, `sheets`, `html`, `printable`, `format` — the
    spreadsheet plan and the printable HTML report.
  - `capture` — what is recorded of the window in front.
  - `analytics` — totals over all projects: each project's enabled time and sessions,
    every session, and the applications with the most time.
- `app/` — the program around the library: SQLite storage (rusqlite), the spreadsheet
  (rust_xlsxwriter) and PDF (printpdf) writers, the once-a-second sampling loop and the
  commands, read as JSON lines on standard input.
- `tests/` — tests of the library on concrete values.
