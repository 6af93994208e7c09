# eleph-codegen

The code generator of Elephentity, as a verified library with a thin program
around it. A compiler turns specs into a schema and pipes it in; this finds the
builders that a project has configured, passes the schema on to each unread, and
signs and writes what they return.

    eleph-codegen generate --project .            # request on stdin; writes the tree
    eleph-codegen generate --project . --check    # writes nothing; fails on any difference
    eleph-codegen describe --project .            # what the builders say of themselves
    eleph-codegen targets  --project .            # the configured targets, as JSON
    eleph-codegen doctor   --project .            # are the builders installed and runnable?

## Layout

- `src/` is the library, proved with Verus. It decides everything and does no
  I/O: a run is a sequence of steps, each of which says what to print and what to
  do next.
- `app/` is the program. It reads and writes files, runs the builders, and hands
  what came of it back to the library.
- `tests/` runs the library, with a project held in memory.

Paths are taken by the rules of Unix, and the program is for Unix.

## What is proved

Each function states what it returns for every input. Beyond that, of every run,
whatever the world outside answers (`conduct`):

- an error about any target keeps all directories untouched, and the run ends by
  telling all the errors;
- a check writes and removes nothing;
- no file is written to a path that escapes its target's directory.

And of directories in which what is written stands until it is written again or
removed:

- a check fails exactly where a file does not stand as signed or something found
  is stale (`upkeep`, `course`);
- after generating, each plan's files stand as signed and nothing stale is left,
  for all plans in one tree, also where one directory lies within another
  (`upkeep`, `tree`). Plans must keep out of each other's way (`kept_apart`),
  write one thing to one place, and name their files as a listing does: a check
  right after generating is clean exactly then;
- plans for targets whose outputs are written plainly keep out of each other's
  way, provided that none writes into a directory that belongs to another target
  (`layout`);
- the steps of a run do to the tree what the plans come to (`course`), and after a
  run that generates and exits with 0 the same run with `--check` leaves the tree
  as it is and exits with 0 exactly for such plans (`rerun`);
- a run ends its work well exactly where each target does: every builder is found
  and can be run, and what it replies can be used (`rerun`);
- only files with an extension that the target owns are removed, and none that
  lie in another target's directory (`upkeep`, `response`).

An edit below the header of a signed file is found, and so is a move to another
path (`signature`), as far as SHA-256 tells two texts apart and the path is on one
line.

## What is trusted

JSON is read and written by `serde_json`, digests are computed by `sha2`, and
bytes become text through `String::from_utf8_lossy`. What is taken from them
without proof stands in the doc comments of the wrappers, in `json`, `codec`,
`signature`, `protocol` and `text`.
