# coreshift_foreground

Resolution of the foreground package of an Android device, with the low-level
Linux primitives that a daemon for it needs, verified with Verus.

The library makes no system call. Every function takes what the system replied
as plain values, and returns what is to be done next; its contract says exactly
what that is. The program under `app/` makes the calls.

## Layout

- `src/` is the verified library.
  - `text`, `path`, `byte_order`: trimming, splitting, decimal numbers, joining of
    paths, numbers in memory.
  - `package_set`, `blocklist`, `terminal_apps`: the lists of packages and their
    files.
  - `cache`: packages by UID, and the file that keeps them.
  - `resolver`: from the processes of the top-app CPUSet to the foreground
    package, with a trace of each step.
  - `binder_source`: the foreground package as the activity manager tells it.
  - `config`, `socket`, `cli`: the configuration file, the protocol and the
    command line.
  - `daemon`, `supervisor`: what the daemon does about each event, and when it is
    started again.
  - `reactor`, `inotify`, `unix_socket`, `signal`: readiness events, file
    changes, sockets and signals.
  - `io`, `spawn`: bounded capture of output, process requests, the steps of
    `posix_spawn` and `fork`, time limits.
  - `fs`, `proc`, `uid`, `log`, `android_property`, `error`: files, procfs,
    ownership, log records, system properties, errors.
- `tests/` runs the library on given values.
- `app/` is the command line program.

## Commands

```
coreshift-foreground daemon [--resolver=auto|binder|cgroup]
coreshift-foreground status
coreshift-foreground watch
coreshift-foreground stop
coreshift-foreground restart
coreshift-foreground resolve [--debug]
```

## How a package is resolved

1. The PIDs of `/dev/cpuset/top-app/cgroup.procs` are looked at in descending
   order.
2. A process counts only if its cgroup v2 directory is populated.
3. Its UID leads to a package through the cache; a system process goes by its
   name.
4. Packages on the blocklist do not count, nor do programs that run in a
   terminal.
5. The lowest OOM score wins. Terminals and the launcher lose ties; among equals
   the higher PID wins.

Public proof functions whose names begin with `law_` state what holds across
calls: that a file that was written is read back, that a blocked package is
never shown, that no candidate is to be preferred to the one that was chosen,
that each UID has one watch, and more.
