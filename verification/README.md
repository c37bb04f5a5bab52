# ad_agent_config

The decisions behind an agent's server-driven config and its login tokens, verified with Verus.

- `src/` is the verified library.
  - `fetch`: what a fetch of the model config does next, and the overrides in the server's answer.
  - `flatten`: a TOML document as entries with dotted keys.
  - `unflatten`: a TOML document from entries with dotted keys.
  - `layers`: the layers of a config, and where those of the server go among them.
  - `jwt`: the envelope of a token and the payload inside.
  - `token_data`: what the claims of a token say.
  - `success_page`: where the browser is sent after a login, and the account claims of a token.
  - `toml_value`, `json`, `urls`, `text`, `entries`, `error`: the values that these work on.
- `tests/` runs the library together with the crates that it calls.
- `app/` is ordinary Rust around the library: HTTP requests, serde records, error display. The host
  supplies the login store (`AuthSource`) and the plans that it knows (`PlanCatalogue`).

Calls into the crates `toml`, `serde_json`, `base64`, `chrono`, `url` and `urlencoding` stand in small
functions marked `external_body`. Above each one a comment says what is taken for granted of the
call.
