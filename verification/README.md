# transfer_proxy_rs

A Minecraft proxy for 1.20.5+ (protocol 766 and newer) that sends players on
to backend servers with the Transfer packet, with three bundled plugins:
`motd` (server list replies), `transfor` (routing by location, network and
weight) and `bbob` (bans managed from the console).

The decision logic is a Verus-verified library; the program around it is
ordinary Rust.

## Layout

- `src/` — the verified library.
  - `network.rs`: `VarInt`s, strings, shorts and frames of the wire format,
    with read/write round-trip lemmas; `split_frames` takes the complete
    frames off a receive buffer, and `lemma_drain_any_reads` shows that how the
    bytes were split into reads does not matter.
  - `session.rs`: the per-connection state machine. `Session::on_packet`
    turns one packet into the next state and a list of actions, specified
    by `spec_on_packet`.
  - `packets.rs`: byte-exact builders for the packets that plugins send.
  - `plugins/`: the decisions of the bundled plugins (`MotdConfig`,
    `TransferConfig`, `BbobConfig`) and their laws.
  - `buffer.rs`, `text.rs`, `ip_info.rs`, `random.rs`: the specified
    interfaces to `bytes`, `std`, `ipnetwork`, `base64`, `md-5` and `rand`
    that the logic calls.
- `app/` — the executable: TCP and channels (`tokio`), the plugin trait and
  manager, YAML files (`serde`, `serde-saphyr`), the GeoLite2 databases
  (`maxminddb`) and logging.
- `tests/` — tests of the library on concrete values.
