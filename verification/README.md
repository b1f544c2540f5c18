# Sanae

A software store for Arch Linux that lives in the terminal: search the
repositories and the AUR in one list, see what a package brings, keep the
system updated, and apply recipes that leave things configured.

The library in `src/` is written in Verus: its functions carry contracts
(`requires` / `ensures`) that the verifier proves, and the properties that span
several functions are stated and proved as `law_*` proof functions. The few
places where the library calls another crate or std without a specification
(the fuzzy matcher, the XML reader, gzip, date formatting, lower-casing, path
parents, UTF-8 decoding, `String::push`) are small functions marked
`#[verifier::external_body]`: their contracts are believed, not proved, and
each one's doc comment says what it claims of the call.

- `model`, `index`, `search`: packages, the index of every package, and the
  ranked fuzzy search over it.
- `sources/`: what pacman, expac, checkupdates, the AUR RPC, the AppStream
  catalog and the Arch news feed answer, turned into packages, details,
  updates, applications and news items.
- `queue`, `recipes`, `commands`: what gets installed or removed, the commands
  that do it, and the recipes that configure software after installing it.
- `screens`: what the details, updates, recipes and settings screens show.
- `exec`, `ui`, `theme`, `i18n`, `show`, `text`: the run screen's output
  handling, the interface's decisions (keys, tabs, settings, shelves), colours
  and marks, translations, and formatting.
- `cache`, `config`, `selfupdate`: cache file names, settings, and the checks
  around updating Sanae itself.

`app/` is the program around the library: the command line, the terminal
interface, running commands in a pseudo-terminal, the network and the files.
It hands the library plain values and acts on what comes back.

`tests/` runs the library on concrete values.
