# nixos-limine

A [limine](https://limine-bootloader.org/) installer for NixOS.

The install is split in two:

- `src/` is the library, verified with Verus. It validates the module's
  install config, renders `limine.conf`, works out every file to copy or
  write (the plan), and every command to run and firmware entry to register
  once the plan is on disk. It never touches the machine: what it needs to
  know comes in as plain values (`Facts`), and what it wants done goes out as
  plain values (`Plan`, `Step`).
- `app/` is the `limine-install` program around it: it reads the JSON
  config, the profiles, the `boot.json` files, `/proc/self/mountinfo`, sysfs
  and the partition table, hashes files, runs the helper binaries, writes the
  firmware variables and flushes the ESP.

Layout of `src/`:

| module | what it holds |
|---|---|
| `raw`, `config`, `settings` | the wire config and its validation |
| `bootspec` | a generation's `boot.json`, flattened |
| `profiles`, `facts`, `gather` | the profiles and generations, and what has to be read |
| `plan` | the copies and writes, their destinations and `boot():` URIs, the prune |
| `entries`, `conf` | the menu entries and the whole of `limine.conf` |
| `efi`, `bios`, `secure_boot`, `nvram` | what follows the plan for each target |
| `install` | an install from start to end |
| `mountinfo`, `disk` | finding the ESP's partition |
| `reads` | which files rendering needs digests of |
| `cmd`, `step`, `hash`, `text`, `path`, `error` | shared pieces |
