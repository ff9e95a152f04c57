# config_collector

Collects proxy configuration links from the public pages of Telegram channels,
keeps those that were not handed out before, tests them with an outside program,
writes them as lists, as base64 and as Clash configurations, and publishes them
through a bot.

- `src/` is the library: what is decided and computed, with contracts that Verus
  proves. `src/outside.rs` and `src/json.rs` hold the calls into other crates and
  what is believed of them.
- `tests/` runs the library on concrete values.
- `app/` is the program around it: the window, the network, the disk, the threads
  and the outside program.

| Module | What it holds |
| --- | --- |
| `text`, `numbers`, `percent`, `collections`, `order`, `store` | texts, numbers, percent encoding, ordered sets and maps |
| `config` | settings, memory of channels, history of links |
| `scraper` | channels, pages, posts, rounds |
| `storage` | which files a round writes, and what they hold |
| `csv`, `naming`, `knife`, `tester` | result tables, names of tested links, the test program, the course of the tests |
| `links`, `converter`, `template` | proxies behind links, Clash configurations |
| `sender` | messages |
| `updater` | releases and packages |
| `ui` | the state behind the window |
