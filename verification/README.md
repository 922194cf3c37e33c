# arrpc

A Rich Presence server for Discord. Programs tell it what is being played, over
websockets or local sockets; games that tell nothing are found by their
processes. A bridge hands all of it on to the clients that watch.

The library in `src/` holds everything that the server decides and computes,
with contracts that Verus proves. `app/` holds the program around it: sockets,
files, processes and the terminal.

| module | what it does |
| --- | --- |
| `rpc` | commands of clients, their replies, and requests to connect |
| `ipc` | packets of local sockets, and the course of a connection |
| `bridge` | what is remembered of each socket and replayed to new clients |
| `state_file` | what is written for other programs, and into which file |
| `process_scan` | scans: which games are found, run on, and are lost |
| `detect` | which application a process belongs to, and corrections to the database |
| `steam` | the games that Steam has installed |
| `process_list`, `macos` | what the operating systems report on processes |
| `ignore_list` | the games that scans pass over |
| `app_name` | the names of applications |
| `cli`, `fixes` | the command line tools and the check of corrections |
| `config`, `listen` | settings, and the order in which ports and slots are tried |
| `json`, `text`, `text_map`, `clock` | the ground that the others stand on |

What is trusted, and not proved, stands behind the functions marked
`#[verifier::external_body]` and the `assume_specification` items: the parser
and the printer of `serde_json`, the parts of its values and their `==` in
`json`; lower case, lossy decoding and
`String::push` in `text`; the clock; and the file name of a path in
`process_list`. Each says in its comment what it claims.
