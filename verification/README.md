# pxar_backup

The decisions behind a `.pxar` backup client, verified with [Verus](https://github.com/verus-lang/verus).

The library in `src/` does no input and no output. It says what to do next, is told what came of it,
and proves that what it says follows its contracts.

| Module | What it holds |
| --- | --- |
| `archiver` | the archiver: `create_archive` starts it, `Archiver::step` goes on |
| `steps` | the actions it asks for, and the events it is told |
| `plan` | what an archiver does next, as a function of its state and of an event |
| `laws` | what holds of every archive, whatever is reported |
| `tree` | what the archive of a directory tree holds, and that the archiver writes just that |
| `patterns`, `excludes` | patterns, and the files that hold them |
| `metadata`, `acl`, `flags` | the metadata of a file |
| `files`, `hardlinks`, `sort` | the entries of a directory, and files with more than one name |
| `open`, `copy` | how files are opened and copied |
| `error`, `mode`, `fs_magic`, `bytes`, `text` | smaller parts; `text` has what messages are made of |
| `stream` | what the consumer of an archive gets |
| `backup_repo` | references to remote backup locations |
| `services` | the services of a backup server |

`app/` performs the actions: it opens files, runs threads and calls `systemctl`. `tests/` runs the
library on made-up file systems.
