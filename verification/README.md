# artisan_comp

Completion engine for Laravel's `artisan`: given the command list that
`artisan list --format=json` reports, the words typed so far and what is known
of the project, it produces the candidates a shell completer shows.

- `src/` is the library, verified with Verus: the completion decisions
  (`args`, `command`, `line`), the values a command's PHP source compares its
  parameters with, and the values its validation rules, prompt fallbacks and
  completion overrides offer (`php`, `tree`, `extract`, `enums`, `rules`,
  `collect`), the catalog
  of well-known project values and its scanners (`wellknown`, `project`,
  `scan`, `config`, `routes`, `testscan`, `sorted`), the cache formats and
  staleness rules (`cache`, `values`), and the reading of artisan's own
  `_complete` output (`native`).
- `app/` is the command-line front end: it walks the project, reads files and
  caches, runs `php artisan`, and prints what the library computes.
- `tests/` exercises the library on concrete inputs.

PHP sources are parsed with `mago-syntax`; the parser's output enters the
library as a post-order listing of nodes that `php::decode_tree` turns into a
tree.
