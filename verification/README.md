# agentplug

One native process runs wasm plugins for many projects. This crate holds what
that process decides: which plugin may call which, where a guest may read,
which slot of a pool a dispatch gets, how requests in a project's spool are
claimed, answered and handed over, which browser session serves a script, when
plugins and the runner itself are renewed, and which of several processes is
the daemon.

The decisions are plain functions from values to values, written and proved in
Verus. Files, clocks, processes, the network and the wasm engine stay outside:
`app/` reads them, hands plain values to the library, and does what comes back.

## Layout

- `src/`: the library. Basics: `text`, `order`, `strmap`, `json`, `path`,
  `clock`. Plugins: `pool`, `broker`, `registry`, `host_state`, `guest_abi`,
  `imports`, `dispatch_origin`, `precompiled`, `install`, `memory_pressure`.
  What holds over any sequence of calls: `pool_runs`, `broker_runs`.
  Browsers: `prefixes`, `browser_engine`, `chrome`, `sessions`, `serve`,
  `browser`, `oxibrowser_driver`, `exec_js`. Updates: `download`, `update`.
  The daemon: `daemon_config`, `projects`, `ownership`, `spool`, `claims`,
  `status`, `handoff`, `daemon`.
- `tests/`: the library on concrete values.
- `app/`: the program around the library.

Properties that span several functions stand as public proof functions whose
names begin with `law_`.

## What is trusted

- `text`: `String::push`, `str::to_lowercase`, `str::to_uppercase` and the
  `Debug` text of a `str`.
- `json`: reading, writing, opening and making `serde_json` values.
- `download`: SHA-256 from `sha2`.
