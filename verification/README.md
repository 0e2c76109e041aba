# dockerproxy

A caching proxy in front of several container registries. If a manifest or a blob is in
the cache and its time is not up, it is handed out at once; else it is fetched from the
registry it belongs to, stored, and handed out.

The library under `src/` is verified with Verus. It works on plain values: it takes the
bytes of requests and the contents of files, and gives the bytes of responses, the files
to write and the requests to send. It does no input or output of its own.

| Module | What it is about |
| --- | --- |
| `text` | splitting, trimming and comparing text |
| `encoding` | query parameters, percent encoding, escaping for pages |
| `format` | sizes and durations for people |
| `config`, `hosts` | the registries, and which one a request goes to |
| `incoming`, `request` | reading the head of a request and taking it apart |
| `headers`, `response` | header fields, status codes, and the responses byte for byte |
| `paths`, `cache` | where entries lie, what they hold and how long they last |
| `registry` | requests to registries, challenges and tokens |
| `exchange` | serving one manifest or blob, step by step |
| `server` | what is done about a request |
| `listing`, `ui` | the list of the cache and its page |
| `walk`, `trees` | walking the cache directory, and what a walk comes to |
| `logging` | lines of the log |

What holds of the library as a whole stands in proof functions whose names begin with
`law_`. What is believed without proof are the contracts of the few functions marked
`external_body` or declared with `assume_specification`, in `text`, `encoding`, `headers`
and `incoming`; each says which function of the standard library or of `reqwest` it calls.

`app/` is the program around the library: arguments, the configuration file, sockets,
the disk and the network.
