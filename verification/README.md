# slack2buzz

Imports Slack workspace history into a Buzz community as an archive. This is the
library, written in Verus: executable Rust whose behaviour is stated in contracts
and proved.

    Slack export → probe → select → parse → import.jsonl
                                              └→ invite

| Module | What it decides |
|---|---|
| `export` | which entries of an archive or directory are an export's files |
| `slack` | how Slack's own records are read: names, subtypes, files |
| `probe` | what an export holds, and what the operator should know about it |
| `selection` | which conversations an operator's flags come to |
| `mrkdwn` | what a message's text is in Markdown, and whom it mentions |
| `parse` | which records an import consists of, in which order, with which counts |
| `ir` | the records themselves |
| `invite` | who is invited, what they are sent, and what the ledger holds afterwards |
| `ledger` | what is recorded, read back, and left alone on a resumed run |
| `report` | what the command line shows and does next |
| `error` | what an error says and how the process ends with it |

`text`, `order`, `names`, `tally` and `fmt` are what the rest is built from; `room`
says whether what was read can be counted by the machine at all.

Contracts speak of models: a string is the sequence of its characters, a record
the same record over such sequences. Each module states its results as spec
functions over models, and what holds across functions as `law_…` proof functions
(in a `laws` file of their own where there are many; `parse::alike` holds those on
how an export was read).

What is trusted rather than proved stands behind small functions that say what
they rely on: SQLite through `rusqlite` in `ledger`, the custom emoji table through
`serde_json` in `export`, and `String::push` in `text`.

`app/` is the command line around the library: files, archives, JSON, prompts.
