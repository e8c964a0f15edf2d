# twilight

The command logic of the Twilight Discord bot for the Gentoo community,
written in Verus with its contracts proved.

- `src/` — the library: which command a message asks for (`handler`), the
  commands themselves (`commands`: `-bug`, `-overlays`, `-wiki`, and the
  notes commands under `commands::info`), message text (`text`, `number`),
  embeds and Discord's limits on them (`embed`), and the calls into chrono,
  nipper, twilight-model and twilight-util (`deps`), whose contracts are
  trusted.
- `app/` — the bot itself: the gateway loop, HTTP requests, the note store
  and sending replies, driven by the library's decisions.
- `tests/` — tests of the library on concrete messages and pages.
