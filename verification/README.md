# mrtracker

A verified library for the Singapore rail network: the live destination
board, the whole-network snapshot behind the schematic live map, the
binding of the map's schematic layout to the network, a bounded
playback schedule, and the printed products — a station departure
timetable and a time–distance train diagram — as self-contained HTML.

The library is written in Verus. Every function in `src/` carries a
contract, and Verus proves the code against it; laws that relate
several functions stand as public proof functions beside them.

## Layout

| Path | Content |
|------|---------|
| `src/` | The verified library. |
| `tests/` | Tests of the library on concrete values. |
| `app/` | The programs around it: the static map site, the map server, the playback export, and the timetable and diagram pages. They read their inputs from files, do the I/O, and compute what is floating point: the map geometry and the diagram coordinates. |

## What the library takes

The library reads no files and no clock. The network, the runs a trip
query returns for a service date, the decoded realtime trip updates,
and the operator's alerts come in as plain values; `app/` reads them
from a data directory:

```text
<data-dir>/
  network.json          the stations, lines, and stop patterns
  days/YYYYMMDD.json    what the trip query returned for that date
  realtime.json         the decoded trip updates, when there are any
  alerts.json           the operator's alerts, when there are any
```
