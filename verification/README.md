# openfusion_launcher

The decision logic of the OpenFusion game launcher, verified with Verus.

`src/` holds the launcher's logic with its contracts and proofs:

- `config`: the launcher and game settings and their defaults;
- `servers`: saved servers, their flat stored form (with round-trip laws),
  merging, lookup, update and removal;
- `versions`: game versions, merging of newly found versions, ordering by name;
- `profiles`: launch profiles, presets per system, migration of older
  presets and the choice of the selected profile;
- `tokens`: refresh tokens by server;
- `launch`: splitting a launch command into words, taking out `KEY=value`
  words, and filling a profile's format string with the game's command;
- `endpoint`: what each reply of a server's web endpoint means;
- `app_state`: the launcher's state at start-up and the imports from the
  older OpenFusionClient;
- `util`: version numbers, server addresses, the game's environment, file
  URIs and cache progress;
- `ids`, `text`, `seqs`: UUIDs, characters and sequences.

The few calls into outside crates (`uuid`, `regex`, and std's collection of
characters into a `String`) are trusted wrappers whose contracts are stated
next to them.

`app/` is the unverified side: files, HTTP, name resolution, processes, the
host's compatibility layers, events for the user interface, and serialisable
copies of the library's types. `tests/` runs the library on concrete values.
