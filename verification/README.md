# Meme Machine

A desktop program that plays a sound when the machine is slapped, or when
something is plugged in or out.

`src/` is the library: everything that is decided, written in Verus and proved
against the contracts in it. It talks to no device, file or clock. `tests/` runs
it on concrete values. `app/` is the program around it: windows, threads, devices
and files.

| module | what it decides |
| --- | --- |
| `settings`, `commands` | what the settings may be, and what each command does to them |
| `catalog`, `player`, `paths` | what the sound library holds: bundles, sounds, selections |
| `playback` | which file is played next |
| `detector`, `microphone`, `accelerometer`, `cooldown` | what counts as a slap |
| `ports`, `monitor` | what is reported of the ports, and when |
| `probe_linux`, `probe_macos`, `probe_windows`, `vocabulary` | what the systems' answers say of the ports |
| `level`, `text`, `json`, `lists` | numbers by bit pattern, text, JSON, and facts about lists |

Laws that span several functions are the public proof functions whose names begin
with `law_`. The items that Verus believes without proof are the wrappers around
`rand`, `serde_json` and the Unicode tables and UTF-8 decoding of the standard
library, in `playback`, `json` and `text`.
