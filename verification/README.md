# podium

A flow interpreter for driving mobile devices in tests, written in Verus.
Flows are Maestro-style YAML files: a header with the app id, then a list of
commands (`launchApp`, `tapOn`, `assertVisible`, `scrollUntilVisible`, ...).

## Layout

- `src/` — the verified library.
  - `parser.rs`, `yaml.rs`, `model.rs`, `text_map.rs`: reading flows, with
    `${NAME}` substitution and the header's `commandTimeout`; the contract
    of `parse_flow` states the whole flow (or the error) it reads from a
    text.
  - `engine.rs`, `driver.rs`, `core_api.rs`: running a flow against a
    `Driver`. A `Recorder` keeps a ghost record of every driver call and
    its answer; the contracts of the waits, the scroll loop, each command
    and a whole run state which calls they make and what they return for
    whatever the driver answered, including step timing and
    abort-on-first-failure.
  - `device/`: the device interface: selectors matched against the XML
    view hierarchy, bounds parsing, an in-memory transport, the adb
    commands of the Android transport and the decisions of its waits.
  - `cli.rs`, `session.rs`, `report.rs`: what the command line computes:
    progress lines, variables, the instrumentation arguments, the APK cache
    key, the device part of a test run as a state machine, and the report
    table.
  - `text.rs`: character-level helpers shared by the above.
- `app/` — the `podium` command and the asynchronous device API: file and
  process I/O, gRPC and the run loops that perform what the library decides.
- `tests/` — tests of the library's public functions.

Calls into serde_yaml, serde_json, quick-xml, regex and sha2 stand behind
small trusted wrappers whose contracts name or state their results.
