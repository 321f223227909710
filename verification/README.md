# tdsl

Rendering and Wikidata helpers of the Timeline DSL, with their decisions verified by
Verus.

- `src/` is the verified library. It holds the timeline model (`ir`), the text it
  produces (`format`, `table`, `svg`, `html`), the layout decisions that do not depend
  on pixels (`layout`, `stacking`, `axis`, `calendar`, `color`), the two pagination
  planners (`pagination`, `time_range`), the PDF page choices (`pdf`) and the Wikidata
  logic (`wikidata`: entities and time values, URL parsing, the retry policy, the cache
  file names and freshness rules). Positions on the time axis are exact integers
  (1/378691200 of a year), so stacking and clipping decisions are proved without
  floating point.
- `app/` is ordinary Rust around it: pixel geometry and SVG drawing (floating point),
  PDF and PNG conversion through `svg2pdf`, `pdf-writer` and `resvg`, the HTTP client
  and the cache files, and serde/thiserror copies of library types.
- `tests/` exercises the library on concrete values.
