# livekit_portal

Carries cameras, joint states and actions between a robot and its operator, and fuses what
arrives at the operator into observations: one state together with one frame of every camera,
matched by the time of the sender.

The library in `src/` is verified with Verus. It does no I/O. What happens in a session comes in
as events and values, and what is to be done comes out as actions and packets.

| Module | What it holds |
|---|---|
| `double`, `window`, `dtype`, `wire`, `serialization` | numbers by their bit patterns, the search window, field types, rows of values on the wire |
| `typed` | values with the type they are meant for |
| `chunk`, `chunk_publisher` | blocks of future actions: on the wire, and fitted to what was declared |
| `codec` | frames as independent images |
| `sync_model`, `sync_buffer`, `sync_laws` | the synchronisation buffer: model, code and laws |
| `config`, `data`, `video`, `bytes` | declarations, publishers and receivers, checks |
| `metrics`, `samples`, `rtt` | counts, percentiles and jitter over recent measurements, round trips |
| `portal`, `portal_laws` | one end of a session as a state machine, and its laws |
| `pull`, `session` | a session of plain fields whose observations wait until they are asked for |
| `ffi`, `server`, `requests` | records and objects for other languages |

Proof functions whose names begin with `law_` state what holds of the library as a whole.
`png_encoded`, `jpeg_encoded`, `png_decoded`, `jpeg_decoded` and `held` name what the `image` and
`dashmap` crates compute; the functions marked `external_body` call them.

`tests/` runs the library. `app/` is the glue to LiveKit rooms and to the language bindings.
