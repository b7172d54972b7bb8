# easymc

Backend for hosting Minecraft servers: an HTTP API that creates, starts and
stops server instances, installs their software and mods, manages worlds and
backups, and guards itself with API keys, an IP ban list, an IP whitelist and
a rate limiter.

- `src/` is the verified library (Verus): the rules of the API and of server
  management, each function with a contract and the laws that tie them
  together (`law_*` proof functions).
- `app/` is the program around it: command line, database, HTTP server,
  processes, files and network requests.
- `tests/` runs the library on concrete cases.
