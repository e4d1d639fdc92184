# hls2dash

Pulls live HLS (MPEG-TS segments) and serves it as live MPEG-DASH or as one continuous MPEG-TS
stream. The decisions of the service are a library verified with
[Verus](https://github.com/verus-lang/verus); the program around it does the input and output.

| Path | Contents |
|------|----------|
| `src/` | the verified library |
| `tests/` | its tests |
| `app/` | the program: configuration files, HTTP, the channel directories |

## The library

| Module | What it decides |
|--------|-----------------|
| `hls::playlist` | what a playlist says, and where its URIs lead |
| `hls::dedup`, `hls::recovery` | replays, rewinds, rewrites, gaps, retries |
| `hls::pull`, `hls::pull_mpegts`, `hls::pull_dash` | a pull session, segment by segment |
| `mpegts::repair`, `mpegts::continuous`, `mpegts::stitch` | packets, continuity counters, the numbered segments of a channel |
| `mpegts::streamer`, `mpegts::egress`, `mpegts::stream` | the cursor, the pace and the stream of a client |
| `cache::retention` | which cached segments may be deleted |
| `channel::model`, `channel::registry` | which channels there are, and which workers run |
| `demux::screen`, `demux::tables`, `demux::units`, `demux::sps` | which transport streams are safe to demultiplex |
| `demux::ts`, `demux::types` | access units for the DASH packager |
| `config`, `http`, `service` | validation, answers, restarts |
| `text`, `number`, `double` | strings, numerals, bit patterns of real numbers |

A function's contract says what it returns on every input. Public proof functions named `law_…`
state what holds across functions. What is taken on trust of the crates `url`, `dashmap` and
`transmux` stands at the few functions that call them.

Floating point stays outside the library: a duration is held as the numeral that spells it, or
as its bit pattern, which is enough to compare it.
