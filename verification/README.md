# xcvrd

The decision logic of a daemon that looks after the pluggable transceivers of a
switch, written and proved with Verus.

The daemon publishes the identity, status and diagnostics of the modules to the
state database, follows their insertion, removal and errors and the changes of
the configured ports, and brings up the datapath of modules that follow CMIS.

* `src/` is the library. Its functions work on plain values: what the slots
  report (`hal`), the rows of the tables (`db`), and points in time. They return
  or change plain values, and note in a log what is asked of the modules.
  * `xcvrd_utilities` maps logical to physical ports and names states, errors
    and tables.
  * `xcvrd` writes identities and follows the modules and the configuration.
  * `dom` publishes diagnostics, keeps the history of latched flags, and decides
    in which order a module is asked for them.
  * `cmis` brings up the datapaths.
  * `daemon` sets everything up and does the turns of the main loop.
  * `text`, `ord_map`, `clock`, `value` and `error` are what these rest on.
* `tests/` runs the library on concrete values.
* `app/` is ordinary Rust around it: the traits through which a platform and the
  databases are reached, and the threads.

The functions named `law_`, most of them in files named for them, state what
holds of several functions together.
