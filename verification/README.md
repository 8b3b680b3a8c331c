# chartml

The chart-independent logic of ChartML, a YAML chart markup language, as a
library verified with Verus.

`src/` holds the verified library:

- `text`, `calendar`: character and string helpers; civil dates from day
  counts, with the round trip proved.
- `data`, `schema`: cell text of columnar data, distinct and non-null
  values, the column types inferred from inline rows, grouping rows by a
  column, and tables read from and written to Arrow IPC streams through
  arrow.
- `number_format`: d3-format specifier parsing, comma grouping, padding,
  sign and symbol placement, and whole numbers in other bases.
- `date_format`: date-label detection (quarterly, multi-year, same-day) and
  strftime reformatting through chrono.
- `color`: palettes, hex colors and palette cycling.
- `labels`: label sampling, with its double-precision step written out
  exactly over whole numbers.
- `layout`, `element`, `chart_spec`: axis and stack settings, text metrics
  helpers, errors, and the chart configuration the renderers read.
- `params`, `annotations`: the class, width and text of parameter
  controls, and annotation kinds, colors, label sides and dash patterns.
- `cartesian`, `pie`, `scatter`, `table`, `metric`, `sources`: the decisions
  each renderer makes: fields, errors, colors, pagination, trends, and the
  messages about data sources.

`app/` holds what works in floating point or on outside types (fallback
colors, number formatting cores, the Arrow-backed table, chrono values, and
the error type with its `Display`); it calls the library for everything
else. `tests/` exercises the library.
