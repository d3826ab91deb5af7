# Prism

A resilience layer and remote desktop for a Linux workstation that runs heavy
local workloads and is operated from somewhere else for days at a time.

`src/` is the library: what Prism decides, written in Verus with its contract
and proved. It reads no file and touches no process; facts about the machine come
in as plain values, and what is to be done comes back as plain values. `app/` is
the daemon around it: `/proc`, systemd, pseudo-terminals, HTTP, and the loops that
carry out one step after another.
`tests/` runs the library on concrete values.

## Where things are

| Module | What it decides |
|---|---|
| `governor` | which pressure tier the machine is in, and what is to blame |
| `sensors` | honest headroom, stall, disk, graphics memory, processes |
| `watchdog::storm` | when a flood of processes is a storm, and what may be done |
| `monitor` | one step of the sensing loop |
| `safety` | which process may be signalled at all |
| `supervisor`, `platform`, `action` | how workloads are run, limited and ended |
| `graceful`, `graceful_config` | asking a workload to give something back |
| `auth` | codes, passwords, tokens, lockout, the console key |
| `api`, `rescue`, `facets_api`, `files_api`, `term_api` | what each request is answered |
| `files` | paths that stay inside their root, and listings |
| `term` | terminal sessions and what they retain |
| `proxy`, `discover` | serving other apps, and finding them |
| `media`, `json` | what a browser can play |
| `bind`, `open`, `enrol`, `setup`, `workspace`, `ui` | listening, first run, stored layout |
| `config`, `gate`, `events` | configuration, capabilities, the timeline |
| `text`, `order`, `figures`, `clock` | what the rest is built on |

## Units

Time is in nanoseconds since a clock was started, or in Unix seconds where it is
written down. Shares of time are in parts per billion, percentages in thousandths.

## What is trusted

The library calls `hmac`, `sha1`, `sha2`, `subtle`, `argon2`, `regex` and
`serde_json`, and a few functions of the standard library, each through one item
whose doc comment says what is claimed of it.
