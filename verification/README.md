# fake-openai

A programmable server that answers as an OpenAI-compatible endpoint would, for testing agent
harnesses. A harness is pointed at it, drives a scenario against the responses that were
programmed, and then inspects the requests that were captured.

Its logic is a library verified with Verus: every function in `src/` carries a contract over a
mathematical model of the data, and what holds of the server as a whole is stated and proved as
public proof functions whose names begin with `law_`.

## Layout

- `src/text.rs`: searching, splitting, trimming and comparing text.
- `src/json.rs`, `src/codec.rs`: JSON values, and the boundary to `serde_json`. What is believed
  of `serde_json` without proof stands in `codec.rs` alone.
- `src/response.rs`: requests, responses, and the reader of timed streams.
- `src/responses.rs`: programmed responses, how they are rendered, and the channels that feed
  the queue.
- `src/behavior.rs`: heartbeats, the one stall, validation, and derived prompt sizes.
- `src/audio_probe.rs`: what the audio of a transcription request is.
- `src/config.rs`: the command line and the models.
- `src/state.rs`: the state of a running server.
- `src/handlers/`: the endpoint families (chat, audio, images, models).
- `src/capture.rs`, `src/admin.rs`, `src/router.rs`: the record of requests, the control plane
  under `/__admin`, and the way of a request through its stages.
- `app/`: sockets, files, clocks, threads, and the one floating-point measurement.
- `tests/`: whole scenarios, the functions one by one, and the laws on concrete values.

## How a request is served

`Router::route` takes a request one stage further and says what to do next: send a response, or
wait and come back with the next stage. The library never sleeps and never blocks; `app/` does
the waiting, with the state unlocked meanwhile.

1. On arrival the control plane answers at once. Every other request is captured, and pays the
   connection delay.
2. It then goes to the first endpoint family that serves its path. A chat request may be turned
   away here, or stalled once.
3. A chat request that was stalled takes its response from the queue when the stall is over.
