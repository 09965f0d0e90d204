# geozero_shp

A reader of ESRI shapefiles, verified with Verus.

`ShpReader` takes the bytes of a main file (`.shp`), an index (`.shx`) and a table (`.dbf`). Its
iterators walk the geometries, or the geometries with their rows of the table, and report what they
meet to a processor. A file that is cut short or damaged leads to one error, after which the
iterators have ended.

- `src/` is the library.
  - `source`, `header`, `shp_reader`, `shx_reader`: the bytes of the main file and the index. Each
    function is proved to give what a specification function (`parse_header`, `parse_record`,
    `parse_index`) says the bytes mean, errors included. The error of bytes that end too early is
    that of the standard library, through one trusted wrapper.
  - `processor`: what takes in geometries, properties and features. The calls to a processor form
    its log, over which contracts state what it is told and in which order. A processor holds a
    `CallLog` for that, which takes no room at run time and which only the calls themselves can
    lengthen.
  - `dbf`: the table, read by the `dbase` crate. The contracts of its wrappers are trusted.
  - `reader`: `ShpReader` and its iterators.
  - `laws`: what holds of whole runs of the iterators (that they end, report one error at most,
    yield every record of a well-formed file, pair geometries with rows, and depend on nothing that
    a processor replies short of refusing something).
- `app/` reads shapefiles from disk and gives the iterators the traits of the standard library.
- `tests/` runs the library on bytes written out by hand.

Coordinates are carried as the bit patterns of doubles; no arithmetic is done on them.
