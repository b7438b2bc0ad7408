# Synapse for Linux

Settings of Razer BlackShark V2 HyperSpeed headsets on Linux: equalizer,
sidetone, automatic power-off, dongle light, battery. The logic is a library
verified with Verus; the programs around it are ordinary Rust.

## Layout

- `src/` – the verified library
  - `hid/` – report descriptors, hidraw nodes, the report channel
  - `devices/` – supported models; `blackshark_v2_hs/` holds the wire protocol,
    one exchange on the channel (`exchange`), the driver (`driver`, `headset`,
    `refresh`), the simulated headset (`sim`) and the laws that tie them
    together (`persistence`)
  - `eq`, `config` – equalizer model and user settings
  - `manager`, `actions`, `worker` – the picture the programs show, what a
    request does, and the device manager's decisions
  - `ctl/` – arguments, commands and texts of the command line
  - `desktop/` – rules of the main window and the tray
- `tests/` – tests of the library
- `app/` – the programs: `synapsectl` and `synapse-linux`

## How the driver is specified

A channel records every use with its outcome. `exchange` reads one
request/reply exchange off that history as a function; a driver's log accounts
for the whole history (`BlackSharkV2Hs::wf`). The operations are specified as
functions of the log (`reading`): which commands were sent, and what was made
of the answers.
