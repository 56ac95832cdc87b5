# eak

The Electronics Agent Kit library, verified with Verus: an engineering domain model for
printed-circuit designs, an event-sourced runtime kernel whose capability seam is the only way
a design changes, a `.kicad_pcb` reader and writer, and the decision logic of the part-selection
and review phases.

## Layout

- `src/` — the verified library.
  - `domain`, `state`, `views`: entities, their validity rules, and the state they fold into.
  - `seam`, `kernel`, `laws`: what the seam accepts, the event log and replay, and the laws
    every accepted request keeps (referential integrity, waivers, discharges, risks).
  - `sexp`, `layout`, `kicad`, `intake`, `export`, `roundtrip`, `decimal`: the KiCad reader,
    writer and the proofs that what is written reads back.
  - `phases`, `review`, `reasoning`, `trace`, `driver`: part selection and BOM planning, the
    advisory explainer, the reasoning answers, the provenance trace and the command logic.
- `tests/` — tests of the library on concrete designs.
- `app/` — the command-line program: argument handling, file I/O and the HTTP call to the
  reasoning model.
