# guessing_game

A number guessing game played in the terminal, in the language of a locale
file, with its logic verified by Verus.

- `src/text.rs`: trimming, pattern counting and replacement, decimal
  rendering and parsing of numbers, over sequences of characters.
- `src/locales.rs`: the texts of a locale, the filling of `{}` and
  `{1}`/`{2}` templates, locale file names, and the catalogue of locales.
- `src/json.rs`: comment stripping, parsing into the library's own JSON
  document, and rendering of the configuration and
  locale files.
- `src/commands.rs`: the `quit`, `reset` and `help` commands.
- `src/game.rs`: the options, the secret number and the rounds of guessing.
- `app/`: the program itself: files, terminal input and output, exits.

Locale files live in `locales/` and are named `ll-CC.json`; the options are
saved in `config/options.json`.
