# goose

The part of Goose that counts tokens, cuts texts down to a budget, shapes the
requests of the Ollama provider and reads declared providers, written in Rust and
proved in Verus.

- `src/` is the library. Every function states what it does in its contract.
  - `text`, `json`, `tokenizer`, `cache`: what the rest is built on, with the
    functions of the standard library, `serde_json`, `tiktoken-rs`, `blake3` and
    `lru` that are taken at their word.
  - `conversation`, `prompt`: messages and tools, and what of them counts.
  - `token_counter`, `budget`: counting, and cutting down from the middle out.
  - `count_laws`, `sums`: how counts relate, such as what adds up and what order
    does not matter to.
  - `model`, `base`, `ollama`, `line_timeout`: models, providers and Ollama.
  - `declarative`, `custom_provider_config`, `bindings`: declared providers, their
    keys, and what other languages call.
- `app/` is what surrounds the library: locks, HTTP, streams and derives.
- `tests/` runs the library.
