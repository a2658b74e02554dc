# pdfplumber (verified core)

The decision logic of a structured PDF extraction library, written in Verus
with machine-checked contracts. Geometry is measured by the caller in floating
point, and the comparisons made on those measurements (which characters align,
which lines are neighbours, which pair of boxes clusters next, how a group reads
its members, filters on positions) stay with the caller. What is built from
their outcomes (lines, boxes, box clusters and their reading order, the emitted
objects) is made and proved here.

Library modules (`src/`):

- `pages`, `document`: the page catalog of an opened document, zero-based page
  selection, exact-size double-ended page iteration, rotation normalization and
  the document-wide resource budgets.
- `errors`: error kinds, typed resource-limit details and operation/page/object
  context.
- `objects`, `families`: the content-stream event collector, the order in which
  object families first appear on a page, and the order of exported families.
- `layout`, `boxes`, `box_order`, `reading`: grouping characters into layout
  lines, merging lines into boxes, clustering boxes and the order they are read
  in, planning which layout objects are emitted in what order, and the proof
  that the resulting reading order takes every character once.
- `structure`: restricting a tagged-PDF structure tree to one page.
- `direction`, `page_boxes`: text directions under page rotation, page-box
  number kinds and the page list of a document opened with a page selection.
- `python`, `arguments`, `caches`: the Python compatibility adapter's error
  classification and messages, argument binding, and cache flushing.
- `javascript`: defaults of the JavaScript API's optional arguments.

`app/` holds the floating-point measurements that feed the library (character
alignment, line neighbours, box distances and flow keys, spatial filters) and parallel
page processing with Rayon. `tests/` exercises the library on concrete values.
