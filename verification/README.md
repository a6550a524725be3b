# package_docs

Documentation for typst packages in markdown: the symbols of a package are
listed, each module is documented once, and every record about a module or a
symbol is carried in a comment as Base64 of its JSON.

The library is written in Verus. It does no I/O and evaluates nothing. Where it
needs the module of a file or the bindings of a module it asks
(`scan::Request`), and the caller answers by adding to `scan::Known`.

- `text`, `order`, `table`, `collections`, `path`: texts, sorted lists, tables,
  numbered files and paths.
- `package`, `manifest`: packages, files and manifests.
- `value`, `docs`, `signature`, `symbols`: what is known of the values that a
  module binds, and what is said of them.
- `scan`, `listing`: the list of all symbols of a package.
- `plan`, `document`: what the documentation says.
- `records`, `encoding`, `annotations`, `markdown`: how it is written out.
- `scan_laws`, `module_laws`, `plan_laws`, `journey_laws`: what holds of every
  scan and of every documentation.

`app/` connects the library with typst's world and serialises the records.
