# dynamism

Builds a two-dimensional map of web pages: pages are searched, scraped,
split into sentences, embedded, merged into chunks of similar neighbouring
sentences, projected to the plane and stored; a viewer shows the map.

- `src/` is the verified library (Verus): the logging `Pipeline`, UTF-8 byte
  slicing, sentence segmentation over `icu_segmenter`, chunk assembly and
  merging, white-space normalization and article-text extraction over
  `sanitize_html`, `readability-rust` and `scraper`, the progress-bar and
  viewer state machines, and the demonstration data.
- `app/` is the program around it: web search and download, the embedding
  model, the projection, the database and the viewer's widgets.
- `tests/` runs the library on concrete inputs.
