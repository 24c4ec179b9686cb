# ncp_core

The networking toolkit NetCat++ (`ncp`): port scans and ping sweeps, file and text
transfer over TCP, an HTTP client, a packet sniffer and a terminal dashboard.

`src/` is the library, written in Verus: every function there carries a contract that
the verifier proves, and the laws of the library are stated as proof functions.

| Module | What it decides |
|---|---|
| `text` | character-level helpers (trimming, splitting, lines, decimal text, integer parsing) |
| `utils` | configuration defaults, human-readable sizes, timeouts, SHA-256 text (also in pieces), the transfer keystream |
| `scanner` | port ranges, service names, OS guesses, banners, result ordering, report files |
| `sniffer` | decoding of Ethernet/IPv4/TCP/UDP/ICMP frames into packet summaries |
| `dashboard` | keys, panel focus, interface selection, traffic tables and their pruning |
| `panels` | the text of the dashboard's packet list, connection table and footer |
| `interfaces` | which network interface a capture opens, and its error messages |
| `api` | bounded capture buffers for packets and text messages |
| `transfer` | the transfer header, resume offsets, the payload encoding (compression, keystream) and its decoding with the checksum check, passphrases |
| `compress` | gzip compression of payloads through `flate2` |
| `http` | header arguments and their validity, redirects, content types, status classes, how a response is reported |
| `cli` | the commands and how the stored configuration completes them |
| `discovery` | devices read from the ARP table |
| `ffi` | the error type of the foreign-function interface |
| `sorting` | the stable insertion sort the tables use |

`app/` is the `ncp` program around the library: argument parsing, sockets, files,
archives, the terminal user interface, system metrics and JSON. `tests/` runs the
library on concrete values.
