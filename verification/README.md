# xboxproxy

A reverse proxy for Xbox downloads. It listens on port 80, selects a bundled CDN
endpoint by the `Host` header of a request, and forwards the request to the candidate
address of that endpoint that measured best. A dashboard under `/manage` shows what goes
on.

## Layout

- `src/` is the library: every decision the proxy takes, written in Verus and proved
  against its contract. But for the clock and a random number it does
  no input or output.
- `app/` is the server around it: sockets, timers, files, the SQLite database and JSON.
- `tests/` exercise the library from outside.

| module | what it decides |
| --- | --- |
| `text`, `search` | texts and sequences |
| `uri`, `headers` | what a request says, and which header fields pass |
| `candidate`, `selector` | which host belongs to which group, and which address is best |
| `endpoints` | the bundled groups, candidate lists, pinned addresses |
| `proxy`, `record` | routing, attempts, answers, and the record of a transfer |
| `metrics` | whether the proxy is busy |
| `speedtest`, `pass` | when a pass runs, what it measures, what a measurement means |
| `db` | rows, statements and queries |
| `dashboard` | what the dashboard may ask for |
| `laws` | what holds across modules |

## What is trusted

The library calls the crates `http` (header maps, names and values, URIs) and `rand`, and a
few functions of the standard library (the clock, `String::push`, `Debug` for texts). Each
of these calls stands behind a declaration whose doc comment says what is claimed of it;
nothing else is assumed.

## Units

Speeds are whole thousandths of a kilobit per second. The database and the JSON of the
dashboard hold kilobits per second as floating point numbers; the server converts.

## Running

The server reads its candidate lists from `data/ip/IP.XboxCn1.txt` and
`data/ip/IP.XboxCn2.txt`, the page of the dashboard from `templates/dashboard.html`, and
keeps its database at `data/xboxproxy.db` for seven days.

| variable | effect |
| --- | --- |
| `XBOXPROXY_PIN_CN1` | pins `xbox-assets` to one IPv4 address and turns speed tests off |
| `XBOXPROXY_PIN_CN2` | the same for `xbox-content` |
| `XBOXPROXY_AUTO_SPEEDTEST` | `0`, `false`, `no` or `off` leaves only the passes that are asked for |

A pass that is asked for from the dashboard runs at once, whether the proxy is busy or
not, unless one is running already. Scheduled passes wait until no request was served for
a minute, and stop between two waves when one comes in. A request is being served until
the body of its reply ended, broke off or was dropped.
