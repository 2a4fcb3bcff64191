# respeaker_algo

A recorder for a six-channel microphone array: four microphones on a circle, a mono channel
processed by the device and a playback reference. It splits the stream into WAV files, estimates
where a speaker is, steers a superdirective beam there, limits the dynamics of the result, and is
operated from a web page.

## Layout

- `src/` is the library. It is written in Verus; every function states what it returns or changes,
  and the statements are proved.
  - `audio`, `pipeline_worker`: capture blocks, hops, the queue between capture and processing
  - `wav`: headers, samples and the final patch of a WAV file
  - `doa`: framing, geometry, peaks, angles on the circle and the tracker of the direction estimate
  - `beamformer`: configuration, weight table, overlap-add plan, output accounting
  - `drc`: settings of the dynamics processor, its delay line, hold counter and schedule
  - `app_config`, `pipeline`: configuration and what makes it valid
  - `refusal`: what is said of a refused configuration, and which field is at fault
  - `recorder`, `recordings`: the recording loop, session manifests, catalog and trash
  - `controller`, `events`: phases of the service, commands, announcements
  - `wasapi`, `web`: device selection, packet accounting; request checks, ranges, answers
  - `single`: order and classes of floating-point numbers given as bit patterns
  - `text`: names, decimal notation, paths
- `app/` is the program around it: sockets, threads, files, the sound device and the
  floating-point arithmetic of the signal path.
- `tests/` runs the library on concrete values.

Facts that relate several functions are public proof functions named `law_...`.

## What is trusted

Six small functions reach outside what is proved: appending a character to a `String`, moving a
vector into a shared slice, lower-casing a text (std); the local time in digits and as RFC 3339
(chrono); and one text field of a JSON object (serde_json). Each says above it what is taken for
granted.
