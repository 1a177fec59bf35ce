# validation_archiver

Runs a script once, and archives it (or a whole watched directory) under
`~/.validation_archiver` if it worked. Backups that have not changed are not
made twice, and old ones are rotated away.

`src/` is the library, verified with Verus: what is run, archived, reported,
removed and pruned, in which order, and where it lies. Work that alternates with
the system is a machine: a job says in `request` what has to be done next, and
`advance` takes what came of it.

- `text`: decimal numbers, names of backups, yes/no answers
- `paths`: Unix paths as byte strings
- `command`: command lines
- `digest`: the hash of a file
- `backups`: the oldest backups of a file, and their removal
- `latest`: the newest backup of a file, and the hash kept with it
- `archive`: archiving one file
- `scripts`, `run`, `monitor`: checking a script, running it, watching it
- `archiving`: archiving the results of a run, file by file
- `watch`: the files of a watched directory
- `projects`, `prune`: listing, removing and pruning projects
- `git_helpers`: publishing an archive kept in a Git repository

`app/` is the program round it: arguments, files, processes, threads and signals.
It does what the jobs ask for and tells them what came of it; that it does so
faithfully is not verified.

The one thing taken on trust is SHA-256, which comes from the `sha2` crate.
