# census

Declarative control of a device's Unix access layer: role accounts, groups, file grants,
and the audits that hold the live system against what was declared. The library is written
in Verus; every function in `src/` is verified against its contract.

## Modules

- `declaration`: the declaration, its validation, and the groups it requires.
- `doctor`: read-only diagnostics, the managed registry against the live system.
- `coverage`: which privileged objects of a host the permission catalog covers, the
  readers of what the scan tools print, and the reverse lookup from a path or command to
  the permissions that grant it.
- `exposure`: who can reach and write what. The permission index, the `acl(5)` access
  rule, reachability, the taxonomy of findings, the posture map and the per-principal
  report.
- `fileaccess`: file grants carried out through POSIX ACLs, and their routing to the
  backends that can enforce them.
- `catalog`, `names`, `inspect`, `state`, `plan`, `text`: the vocabulary these share.

## Reading the contracts

A type with strings or lists in it has a view, and contracts speak of views. A function
that decides something has a spec function of the same subject that says what it decides;
its `ensures` equates the two. What holds of several functions together stands at the end
of a module under "Laws", as public proof functions.

Reading files, walking directories and running commands is not the library's: it takes
what came back, or, where questions and decisions alternate, it is a machine that asks
(`exposure::walk`, `coverage::setuid`, `coverage::capture`; `exposure::tree` says what a
whole walk of a filesystem comes to). `app/` does the asking, reads
the TOML files and writes the serialized reports.

What is taken on trust is in `text`: four functions of the standard library on strings and
bytes, each with what it is trusted to do.
