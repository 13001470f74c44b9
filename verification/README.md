# mnemos

A memory for agents. Episodes are stored as engrams in a graph, tied to the concepts
they speak of; a recall finds the episodes that resonate with a query, spreads
activation along the edges, and leaves a ticket by which it can be rewarded; sleep
lets memories fade, splits overloaded concepts and forms traits.

`src/` is the library, verified with Verus. It holds the decisions: how command
lines, requests and replies are read and written, how settings resolve, what each
pipeline does next, how results are ranked, how weights and ledgers change. A
pipeline that works with the outside is a state with a `request`: the caller does
what is asked and hands the reply back.

`app/` is the program around it: HTTP, the HelixDB client, the chat and embedding
models, files, and floating-point arithmetic. The library keeps a double by its bit
pattern (`double::Double`): it compares, bounds and truncates doubles, and takes the
results of arithmetic as arguments.

| Modules | What they hold |
| --- | --- |
| `text`, `double`, `json`, `env`, `clock`, `error`, `types`, `ids` | values, and how they are read |
| `config`, `cli_args`, `providers`, `storage` | settings and their resolution |
| `llm`, `embedding`, `scoring`, `concept_extractor` | what is asked of models, and how replies are read |
| `ingestion`, `contradiction`, `mitosis`, `consolidation`, `cycle` | storing, checking, splitting, fading |
| `recall`, `retrieval`, `ranking`, `stimulation`, `sequence`, `edge_weights`, `reranker` | recalling and learning |
| `http_routes`, `http_api`, `daemon`, `mcp_server`, `mcp_tools`, `mcp_protocol`, `facade` | the surfaces |
| `telemetry`, `telemetry_history`, `telemetry_report` | events, counters and their files, what they add up to, and how a dashboard reads them |

`tests/` runs the library on concrete values.
