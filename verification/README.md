# daplot

A small plotting tool for tabular data: it loads a CSV / TSV / Parquet file
into a columnar table, works out what each column holds (numbers, points in
time or text), and draws chosen columns as line, marker, scatter or bar
series in one or more subplots.

## Layout

- `src/` — the verified library (Verus):
  - `text.rs`: Unicode white space and trimming, the float-literal grammar
    of `f64`'s `FromStr`, decimal rendering, file-name sanitising.
  - `datetime.rs`: points in time (nanoseconds since the epoch), parsing
    date/time text with chrono, unit conversions, tick labels, the day-range
    row filter, min/max, calendar days.
  - `data.rs`: the `Table`, column type inference, category indices of text
    columns, CSV loading (csv crate), file formats.
  - `batches.rs`: assembling a table from record batches, the first batch
    fixing each column's kind.
  - `parquet.rs`: decoding Parquet bytes (parquet and arrow crates) into
    record batches, reading each batch column as plain values, and the
    table the batches give.
  - `model.rs`: subplot and series configuration, identifiers, the palette,
    and the choice of column for a new series.
  - `capture.rs`: presentation mode around a PNG export, and the export's
    default file name.
- `app/` — the eframe/egui program around it: windows and widgets, file I/O,
  and everything drawn in floating point.
- `tests/` — tests of the library.

The library holds no floating-point values: numbers are kept as the float
literals they were read as, and points in time as integer nanoseconds; the
program converts both to `f64` when it draws.
