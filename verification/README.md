# file_downloader

Downloads files over HTTP in chunks, several connections at a time, with pause,
cancel and resume. The library under `src/` holds the logic, verified with Verus:

- `download::chunk_range`: byte ranges, the list of remaining ranges cut into
  chunks, and the chunk bookkeeping of a download (with the laws that the chunks
  tile the file and that every byte is accounted for).
- `download::chunk_manager`: which chunks are downloading (never more than there
  are connections), and the decisions of the chunk download loop.
- `download::download_task`: the state of a task and the decisions of its
  sequential download loop and of the scheduler.
- `download::downloader`, `downloader::UrlFileName`: file names from URLs.
- `utils`, `download::util`, `downloader::util`: the file length read from the
  `Content-Length` header of a HEAD reply.
- `downloader::*`: the second downloader design (chunk iterator, retries, the
  builder of a download's settings).
- `task::task`: what a paused download keeps to resume (every byte not yet in
  the file is queued again); `task::progress_bar`: the text of the progress bar.

`app/` is the program: command line, configuration and state files, logging,
the HTTP transfers, and the async loops that call the library's decisions.
