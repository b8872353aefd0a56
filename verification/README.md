# rewriter_queue

The decision core of a resumable job queue for code synthesis by several agents, written and
verified in Verus.

A run takes a source tree and a mission through a contract, a test matrix, an analysis and a
schema to a crate that is planned in milestones, built, patched, integrated and looked over. The
queue runs such runs one after the other, resumes the ones that were interrupted, and can be asked
over the command line, HTTP or MCP.

- `src/` holds the decisions. Everything that needs the outside world is a step: a procedure is
  called with the answers given so far, and returns its result, a failure, or the next thing to be
  done. Contracts say exactly which of these it is. The proof functions whose names begin with
  `law_` state what holds of whole procedures.
- `app/` does what the steps ask for: files, processes, HTTP, threads, and the scores of the
  providers, which are floating point.
- `tests/` runs the procedures on scripted worlds.

| Modules | Subject |
| --- | --- |
| `text`, `numbers`, `order`, `ranking`, `paths`, `glyphs`, `clock`, `json`, `sections`, `copied` | plain data and its order |
| `steps`, `effects`, `conversation`, `workspace`, `manager` | steps, checkpoints, talks with an agent |
| `patch`, `quality`, `gate`, `verdicts` | drafts: patched, read, built and judged |
| `milestones`, `waves`, `wiring`, `chunks`, `building`, `repair`, `ids`, `synthesis`, `documents`, `pipeline` | the run |
| `agents`, `tools`, `manifests`, `arguments`, `estimation` | what a run is set up with |
| `types`, `models`, `names`, `backends`, `config`, `metrics`, `qualification`, `registry` | providers and routing |
| `jobs`, `worker`, `view`, `requests`, `remote`, `server`, `mcp`, `archive` | the queue |

The usual models of Anthropic, their prices and the command-line program that serves them are named
after the family that they belong to. What that family is called is a setting of the installation,
the variable `REWRITER_MODEL_FAMILY`, and the library takes it as an argument.

Tools are offered only to providers whose protocol carries them. None of the protocols that are
spoken here does yet, so a stage that offers tools is told that no provider is available, rather
than asking a model that was never offered them.
