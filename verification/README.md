# Willow Extractor

Bibliographic metadata extraction from URLs, HTML pages and PDF files,
written in Verus.

`src/` is the verified library. It decides and computes; every network
request is made by the caller, which hands the reply back as plain values.

- `detect` — DOI, ISBN, PMID and arXiv identifiers found in text, with their
  grammars written as scanners and proved against spec functions.
- `extract::html` — items from JSON-LD, Highwire Press, Dublin Core,
  OpenGraph and plain meta tags, in that order of preference.
- `extract::pdf` — the document information dictionary, identifiers in the
  text of the first pages, and the file name as a last resort, planned as a
  `PdfPlan` that says what is left to look up.
- `fetch` — request URLs and the reading of CrossRef and OpenLibrary replies,
  and the choice of the next identifier to look up.
- `json`, `item`, `text` — the JSON values, the item type and the character
  helpers that the rest is stated over.

`app/` is the HTTP server and client around the library (axum, reqwest,
serde); `tests/` runs the library on concrete inputs.
