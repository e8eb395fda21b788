# signex_kicad

Data model and file formats for the Signex EDA tool, with their behaviour
stated as contracts and proved by Verus.

## Layout

- `src/` is the verified library; Verus checks all of it. Its public
  functions carry `requires` / `ensures` contracts:
  - the schematic and board model (`schematic`, `pcb`, `coord`, `layer`,
    `net`, `violation`, `theme`, `project`);
  - reading S-expression text, with the law that written text reads
    back (`sexpr_read`), and schematics and symbol libraries read from
    their text (`kicad_text`);
  - KiCad S-expression reading and writing (`sexpr`, `kicad_parse`,
    `kicad_sch_read`, `kicad_lib_read`, `kicad_symlib`, `kicad_read`,
    `kicad_write`, `kicad_sch`, `kicad_lib`, `kicad_pcb`, `numeral`);
  - the native `.snxsch` / `.snxpcb` tables: cell encoding, TSV blocks,
    row types, section text, symbol and board extras, the format version
    check (`snx`, `snx_rows`, `snx_symbols`, `snx_pcb`, `tsv_laws`,
    `cell_laws`);
  - rich-text markup and expression substitution (`markup`);
  - the sheet hierarchy walk, as step functions (`sheet_walk`) and as a
    whole walk over a directory given as its files (`sheet_dir`), and
    content bounds (`bounds`);
  - what a written board file holds at its top level (`pcb_sections`).
- Public proof functions (`lemma_*`) state the laws that hold across
  calls: that what is written reads back, that TSV columns line up, that
  layer labels are distinct, that hex colours read back, that a written
  board has one section per net, footprint, track, via and zone, and
  others.
- The only calls into outside code stand behind a few trusted wrappers,
  each with a doc comment naming the function it calls: `uuid`'s parser
  and formatter, and `String::from_iter`.
- `app/` is the thin command-line program around the library: argument
  handling, file reads, the loop that drives the sheet walk, the clock
  seed for fresh UUIDs, and error types with `Display`.
- `tests/` runs the library on concrete values.

Coordinates are integer nanometres; decimal text is read and written with
six fractional digits of a millimetre.
