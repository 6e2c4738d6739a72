# pinkbin

A disk-cleanup toolkit for Windows whose decisions are proved with Verus.

- `src/` is the verified library:
  - `guard` — the risk gate: path verdicts, plan audits, uninstall-string screening;
  - `dedup` — duplicate detection by size, head digest and content digest;
  - `inventory` — installed applications and uninstall leftovers;
  - `system_ops` — hibernation, page file, restore points, migration analysis;
  - `commands` — cleanup actions, system-command scopes, uninstall and migrate-app plans;
  - `elevate` — restarting with administrator rights;
  - `tree` — truncating and summarising a scanned size tree;
  - `advisor` — model discovery and reply handling for the folder advisor;
  - `json`, `text`, `sort` — shared helpers.
- `tests/` exercises the library.
- `app/` is the command-line program: it reads the disk, the registry and the
  network, runs commands, and prints JSON.

Every operation that changes the machine is prepared by the library and
carried out by the program, which hands back what it observed.
