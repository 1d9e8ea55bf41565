# laya-gateway

A gateway that runs on the developer's machine, on loopback only, and sits
between a coding agent and its model. When the agent offers tools, the gateway
asks a System One service which tool to call next and then fixes the request's
`tool_choice`; otherwise, or when System One fails, the request goes upstream
untouched.

- `src/` is the verified library (Verus): URL and settings normalization
  (`config`), the routing decision and the System One request (`decide`,
  `laya`), a JSON model of the chat request (`json`), the per-request routing
  steps (`handlers`), the statistics with their bounded event log (`stats`),
  the error answers (`error`) and string helpers with their specifications
  (`text`).
- `app/` is the HTTP server (actix-web), the HTTP clients (reqwest), the
  environment and settings file, serde forms of the library's types, and the
  floating-point handling of System One's confidences.
- `tests/` runs the library on concrete inputs.
