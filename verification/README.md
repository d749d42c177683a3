# homelab

Three small home-lab tools whose logic is written in Verus and proved
against its contracts:

- an SMS terminal client for ModemManager (`mmcli`), with a ratatui
  interface;
- a DNS-over-HTTPS forwarding proxy;
- an exporter of Portainer container metrics to InfluxDB.

## Layout

- `src/` — the verified library.
  - `text.rs`: character-level string operations (trimming, lines, words,
    searching, numbers) with specifications over `Seq<char>`.
  - `sms.rs`: SMS records and the reading of `mmcli` output.
  - `conversations.rs`: sorting messages by time and grouping them into
    conversations, with the laws that sorting orders and permutes, and
    that grouping keeps every message.
  - `editor.rs`: the text fields of the client (keys, cursor, line moves).
  - `app.rs`: the client's state machine: a key press changes the state
    and may ask for modem work, whose result is handed back.
  - `view.rs`: what the screen shows (truncation, SMS segment counter,
    message panel lines, scrolling, menus, modem picker).
  - `doh.rs`: the proxy's decisions: accepted upstreams, fail-over order,
    reply checks, cache lifetime, and the DNS handler's steps.
  - `metrics.rs`: line-protocol records and the batching of records sent
    to InfluxDB.
- `tests/` — tests of the library on concrete values.
- `app/` — the programs around the library: terminal, processes, network,
  cache, logging and floating-point figures. `homelab sms`,
  `homelab doh-proxy [options]`, `homelab portainer`.
