# phone_control

Schedules, streams and records a fleet of Android devices over `adb` and
`scrcpy`. What is decided is verified with Verus; what touches the machine is
ordinary Rust around it.

`src/` is the verified library:

| module          | what it decides                                                    |
|-----------------|--------------------------------------------------------------------|
| `binaries`      | where the `adb` and `scrcpy` executables are                       |
| `scrcpy_client` | command lines, client ids, ports, the local scrcpy installation    |
| `bootstrap`     | how a scrcpy session is started, step by step                      |
| `wire_format`   | the layout of the video socket                                     |
| `log_pump`      | how server output is cut into lines                                |
| `recording`     | which video packets go into a recording, and when they show        |
| `devices`       | which devices are online                                           |
| `leases`        | which device is reserved for which task, and until when            |
| `control_api`   | what the local HTTP control API answers                            |
| `text`, `paths` | the text and path functions that the rest builds on                |

`tests/` runs the library. `app/` runs the processes, sockets, files and the HTTP
server, and carries out what the library decides.

Three things are taken on trust, each stated where it is declared in
`scrcpy_client`: the hash that `fxhash` computes, and the standard library's
randomly keyed hasher and its keys, of which nothing is claimed.
