# md_gfx

Verified graphics compilers for a Mega Drive ROM: each effect reads the JP
source transfers, checks them against its manifest, renders the Korean
lettering in the source consumer's native geometry, encodes it as 4bpp tiles
and maps, and plans the checked ROM writes that install it.

## Layout

- `src/` — the library, verified with Verus. Each effect has a module
  (`bad_end_gaan`, `bayoen_jin`, `compile_slogan`, `demon_byun`,
  `escape_doors`, `exam_card`, `exam_seals`, `intro_bechi`, `intro_doki`,
  `intro_pokan`, `karaoke`, `credits_top`, `credits_timed`) with its manifest
  checks, its compiler, its preview and its `apply_*` step. Shared pieces:
  `tiles` (column-major 4bpp codec), `palette`, `rom` (big-endian words,
  expected writes, header checksum), `insert` (checked write lists and the
  only-ranges-changed law), `pack`, `preview`, `hex`, `text`, `sets`, `grid`,
  `sprite`, `font_effect` (native glyph lines), `digest` (SHA-256), and
  `bdf`/`bdf_text` (reading and checking BDF bitmap fonts).
- `app/` — the command-line driver: file I/O, JSON manifests, PNG output and
  font rasterisation.
- `tests/` — tests of the library on concrete inputs.

Every `apply_*` step takes the encoded pack headers and banks as bytes: it
checks each write against the bytes it replaces, writes the header checksum,
and leaves the output untouched when anything is refused.
