# minipaw

A small command line agent. The library under `src/` holds its decisions: each
function states in its contract what it returns or changes, and Verus proves it.
The program under `app/` does what the decisions ask for: files, processes, the
network and the terminal.

## Modules

| Module | What it decides |
| --- | --- |
| `chars`, `text`, `numbers`, `table`, `order` | texts, numbers, sorted tables and sets, with their models |
| `json`, `config`, `readback` | the configuration file: reading, writing, editing, and that what was written reads back |
| `frontmatter`, `skills`, `prompts`, `prompt_texts` | skill files, prompt templates and numbered rules |
| `adjustments`, `advisor` | suggestions of the advisor, proposals, and the comparison of two answers |
| `memory`, `sql` | the bounded store, its index and details, and the statements of a database behind it |
| `llm`, `http` | requests to a model and what the replies hold |
| `planner`, `tools`, `orchestration`, `agent` | patterns, plans, the tool policy, the task queue and the agent loop |
| `session`, `minicore`, `log` | sessions with a model, routing between two models, shadow runs and adjustments, and the log of them |
| `rubric`, `train`, `training` | verdicts on cases, and the training on them |
| `channels` | agents that commands go to, and the Telegram bot |
| `cli` | commands, settings, onboarding, uninstalling, the gateway |
| `foreign` | functions of the standard library whose contracts are taken as given |

Laws that relate several functions are public proof functions whose names start
with `law_`.

## Asking and answering

Where work alternates with decisions, the library has a state that says what is
to be done next and takes up how it went: `agent::PlanRun`, `training::TrainingRun`,
`cli::loops::GatewayRun`, `cli::setup::Onboarding`, `cli::uninstall::Uninstall`, and
the phases of `minicore::MiniCore::process`.
