# squid

A fast downloader of content over HTTP, written in Verus.

- `src/` is the verified library:
  - `download.rs`: download options, strategies, messages and errors, and the
    download task, which takes the answers of the server (a `HEAD` response, the
    status of a request for the first bytes, what is found at the output
    directory) and decides what they mean: the content length, the suggested
    file name, partial content support, the output file's name and path, and the
    plan of the download.
  - `chunks.rs`: the division of the content into chunks, with the proof that
    the chunks cover it exactly, and the reassembly in index order of chunks that
    arrive in any order, with the proof that every arrival order writes every
    chunk.
  - `headers.rs`: the readings of headers and file names that `hyper` and the
    standard library make, behind small trusted wrappers.
  - `command_line.rs`, `program.rs`: command line arguments and program options.
- `app/` is the program around it: argument parsing with `argparse`, the HTTP
  requests with `hyper` and `hyper-native-tls`, the output file, the worker
  threads with `threadpool`, and timing with `time`.
- `tests/` runs the library on recorded answers of a server.
