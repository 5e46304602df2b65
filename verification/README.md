# brewmble

Keeps the packages of a small fleet of Linux and macOS hosts up to date. A
daemon on every host answers a small HTTP API (status, full upgrade, reboot)
through the local package manager (APT or Homebrew) and announces itself over
mDNS; a command-line client discovers the daemons, keeps them in profiles of a
YAML configuration, and queries or upgrades them.

Layout:

- `src/` — the verified library (Verus):
  - `text.rs`: character-level string operations with exact specifications
    (lines, words, prefixes, decimal numbers, joining);
  - `profiles.rs`: nodes, profiles and the name-to-profile map;
  - `config.rs`: the client configuration — merging discovered daemons,
    loading legacy files, the profile commands, target selection;
  - `discovery.rs`: what the client makes of mDNS answers;
  - `client.rs`: target URLs, reports, the timeout setting, the config file location;
  - `package_manager.rs`: the APT and Homebrew back ends over a command runner,
    whose log of the command lines it is given the contracts speak of;
  - `daemon.rs`: authorization, answers, and the lock that lets one upgrade run at a time;
  - `rest.rs`: the messages and names shared by client and daemon.
- `app/` — the executable: argument parsing, files, HTTP, mDNS, processes and
  the clock. Started as `brewmbled` it is the daemon, otherwise the client.
- `tests/` — tests of the library.
