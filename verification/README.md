# puffer_contacts

Contacts of a desktop assistant: who may be worth saving, who was written with last, and what is
shown of them. Candidates are collected from cached Telegram peers, recorded messages, connectors
and past workflow runs. They are ranked, searched, listed page by page, and saved.

The library under `src/` is written in Verus, and every function states what it does.

| Module | What it holds |
| --- | --- |
| `text`, `text_map`, `order`, `score`, `json` | texts, maps by text, stable sorting, scores as bit patterns, JSON values |
| `names`, `models`, `context`, `errors` | rules on names and ids, contacts and candidates, context items, refusals |
| `peer_cache`, `hydration` | the durable peer cache: what is recorded, when it is filled, how far that goes |
| `peer_metadata`, `messages`, `replies`, `window`, `history` | what caches, messages and past events tell of contacts |
| `collect`, `sources`, `recent`, `listing`, `sampling`, `saved`, `requests` | candidates and saved contacts, and the answers to requests |

Public proof functions named `law_...` state what holds across functions: that pages follow one
another without a gap, that a marker is read back as it was written, that saving a contact leaves no
two contacts with an id in common, that collecting loses nothing.

Scores are floating-point numbers. The library orders them by their bit patterns and tells
everything that goes into them; the arithmetic itself stands in `app/scoring.rs`.

`app/` is the service around the library: account files, the Telegram client, serialisation, and the
requests of the desktop. How contact ids are normalized, and what connectors and the history tell,
comes from the process that it runs in, through the trait `ContactHost`.
