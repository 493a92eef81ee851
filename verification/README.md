# cosmic-ext-applet-wifi-plus

A Wi-Fi panel for the COSMIC desktop: live link metrics, band pinning, DNS
switching and the network list in the panel popup, read through `nmcli`,
`iw`, `ip`, `ping` and `/sys/class/net`.

The logic of the panel is a library verified with Verus; the applet around it
is ordinary Rust.

## Layout

- `src/` — the verified library.
  - `text`, `number`, `terse` — the parts of `str` the readers need (trimming,
    lines, words, integer parsing) and nmcli's terse, colon-separated format.
  - `net`, `status` — the link reading: route, counters, `iw dev <iface> link`
    and nmcli's in-use line, and the ping reply.
  - `scan` — saved profiles and scan results folded into one row per network,
    ranked connected → known → signal.
  - `band`, `nmcli` — the band selector, DNS providers, connection outcomes,
    and the multi-step band and DNS changes (a failed band change is
    reverted).
  - `qr`, `json`, `speedtest` — the `WIFI:` sharing payload, the `ip -j` and
    speed test documents, and the speed test's streams.
  - `model`, `layout` — icons, captions, the header speed, the ping window and
    byte counters, and what the bar and popup show.
  - `panel` — the panel's state machine: every message, the new state and the
    command for the shell.
- `app/` — the COSMIC applet: toolkit, processes, files, floating-point
  formatting and the `--status` report.
- `tests/` — tests of the library.
