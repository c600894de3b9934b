# harper_zh

Chinese and mixed Chinese–English grammar and style hints, with their
behaviour stated as contracts and proved with Verus.

- Phrase rules (`ZhHomophoneSpell`, `ZhDeDiDe`, `ZhWordConfusion`,
  `ZhRedundancy`): each is a table of `bad → good` pairs, matched on the
  characters of the text, longest patterns first, without overlaps.
- `ZhPunctuation`: `。。。` and `...` in Chinese text, ASCII `,` and `.`
  between Han characters.
- `ZhCjkEnglishSpacing`: a space between Han characters and Latin letters.

## Layout

- `src/` — the verified library.
  - `script`, `text`, `lint_kind`, `suggestion`, `lint`: characters, spans,
    lints and suggestions.
  - `pattern_linter`, `punctuation`, `cjk_english_spacing`: the three kinds
    of rule; `rules`: the built-in tables and the Chinese group;
    `lint_group`: named rules with on/off settings.
  - `cli`, `session`, `overlaps`: rule selection, overlap removal, fixing
    (in rounds, safe rules only), how a run ends; `stats`, `ranking`, `summary`, `spelling`, `report`:
    counts (held in hashbrown maps), their ranking and the text of reports.
  - `json`, `dictionary`: the annotation file as JSON (parsed by
    `serde_json`), renaming a flag and auditing a dictionary.
  - `pattern_laws`, `fix_laws`, and the `lemma_*` proof functions elsewhere:
    the laws the library keeps.
- `app/` — the `harper-cli` front end: arguments, files, terminal and JSON
  output, and the `rename-flag` and `audit-dictionary` commands.
- `tests/` — tests of the library.
