# luedd

A download manager: files over HTTP in resumable pieces, HLS and DASH streams,
what yt-dlp and instaloader fetch from sites, posts and stories from Instagram,
and torrents. A browser extension reports media and pages to a local server,
which offers them, queues them and runs the queue.

## Layout

- `src/` is the library: everything that is decided or computed. It is verified
  with Verus, item by item, against the contracts that stand with the functions.
- `app/` is the program around it: the command line, the server, requests,
  processes and files. It hands plain values to the library and acts on what comes
  back.
- `tests/` runs the library on concrete values, with the outside crates linked.

Work that alternates between the network and decisions is a state machine in the
library (`IgRun`, `EngineRun`, `PreviewRun`, `TorrentRun`, `YtdlpRun`, `Transfer`, `Lookup`,
`SessionTry`, `DownloadManager`): the program performs a step and hands in its
result.

## What is believed without proof

Calls into outside crates stand behind small functions whose contracts say what is
believed of them: AES-128-CBC decryption (`crypto`), JSON (`json`), URLs and form
queries (`urls`), XML (`xml`), base 64 (`preview`), random identifiers (`entry`),
magnet links (`torrent`), and of the standard library the clock (`clock`), lower
case beyond ASCII and `String::push` (`text`) and `char::from_u32` (`naming`).

## Numbers

Durations, sizes and rates that sites write with a decimal point are computed
exactly, on their digits. The length of an HLS stream, which only drives the
progress of the conversion, is added up in floating point by the program.
