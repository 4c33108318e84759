# pitanga

A small batch-job scheduler. A server keeps a queue of shell scripts in
`~/.pitanga/jobs`; workers connect to it, say how many threads they offer,
and run the jobs the server hands them; a client submits a script.

A job script carries its settings in comment lines that start with
`#PITANGA`: without that marker the lines form a YAML mapping with the keys
`THREADS` (required), `ID`, `PID` and `IP`.

## Layout

- `src/` — the verified library (Verus):
  - `size.rs`: the four-byte length header of a message, in the machine's
    own byte order (so server and workers must share one);
  - `message.rs`: judging what each read and write of a message gave;
  - `text.rs`: character helpers, decimal numbers as `to_string` writes and
    `str::parse::<usize>` reads them;
  - `yaml.rs`: YAML documents as plain values, read with `yaml-rust`;
  - `ip.rs`: IP addresses as plain values;
  - `job.rs`: reading a job script's settings;
  - `queue.rs`: the server's job files, submissions, assignment and requeueing texts;
  - `worker_status.rs`: what the server knows of a worker and what a worker
    knows of itself: threads, the job to send, running jobs;
  - `worker_config.rs`: a worker's settings (`server`, `threads`);
  - `protocol.rs`: the words exchanged by server, workers and client, and the
    order of the server's round of questions to a worker (`talk_step`) and of
    the client's submission (`batch_step`).
- `app/` — the programs: `pitanga server`, `pitanga worker`,
  `pitanga batch <script>`. They do the networking, files, processes and
  threads, parse IP and socket addresses, and leave what to say and what to
  make of an answer to the library. The waits, sleeps and lock handling
  around those steps are theirs.
- `tests/` — tests of the library.

Reading a job script takes three library calls and one address parse:
`Job::settings` gives the YAML documents of its settings, `Job::ip_to_parse`
the text of its `IP` setting, which the caller parses, and
`Job::from_settings` the job.

Settings are read by a recursive YAML loader: a `#PITANGA` line nested tens of
thousands of levels deep exhausts the stack, as it would with any use of the
loader.
