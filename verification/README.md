# vnfs

A vectorized network filesystem client: many file operations become few protocol
requests. This crate holds its decisions (what goes into a request, what a reply
means, what follows from it) as Rust that Verus has verified against stated
contracts. It does no I/O of its own.

`src/` is the library:

- paths: `path`, `pathtext`, `resolve`, `manyresolve`
- NFSv4 requests and replies: `proto`, `compound`, `xdr`, `attrs`, `owner`, `shape`,
  `replies`, `session`, `planner`
- merged compounds, which name files by their paths: `client`, `pathio`, `pathops`,
  `pathclient`, `pathres`, `metares`
- batches of same-shaped requests: `nfsclient`, `batch`, `many`
- vectored requests from the first compound to the last: `runs`, `settle`
- the vectorized API over NFS: `vecfs`, `nfsvecfs`, `table`, `descio`, `mergedio`,
  `openplan`, `dirops`, `listing`, `walk`, `copyplan`, `copyrun`, `stats`
- the same API over SMB2/3: `smb`, `smbwire`, `smbfs`; and over a local directory:
  `local`
- the transactional-compound API: `tc`
- shared: `error`, `text`

What a library function does, its contract says. What holds of several functions
together stands beside them as a public proof function whose name starts with
`law_`.

`app/` performs the I/O: it sends what the library builds and hands back what came
in. The ONC RPC client and the COMPOUND codec are bindings to a C library; whoever
links it implements `Transport` there.

`tests/` runs the library, among other things against a small file server in
memory.
