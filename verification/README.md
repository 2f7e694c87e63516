# llm_wiki

The part of a desktop wiki that reads its sources from a remote document server: OpenText xECM or
OpenText Core Content. `src/` is a library that Verus verifies. It decides and computes; it sends
nothing. `app/` is the desktop application, which sends the requests that the library names, hands
back the answers, and keeps files and windows.

| module | what it holds |
| --- | --- |
| `text`, `text_map` | operations on characters; a map from text |
| `encoding` | percent-encoding, hexadecimal notation |
| `source_path` | which paths name remote sources |
| `cache_key` | names of cached contents |
| `json` | the JSON texts that a session is kept in |
| `transport` | what statuses and lost requests mean |
| `xecm_client`, `xecm_laws` | xECM: tickets, pages, paths, surveys |
| `core_content_client`, `core_content_laws` | Core Content: sessions and their renewal, listings, contents, surveys |
| `login` | logging in to Core Content through a browser window |
| `desktop` | the source in use, closing windows, the helper server |

A request is a value, such as a `TicketCall` or an `ApiRequest`. A task of several requests is a
value too, such as a `PageWalk`, a `PathWalk` or a `SnapshotWalk`: it names the next request, takes
the answer and gives the next step or the result. The contracts state each step over mathematical
models; the laws state what whole tasks come to.

What comes from other crates and is believed without proof stands in functions marked
`external_body`, each with a comment that says what is believed of it.
