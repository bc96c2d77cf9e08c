# sotf_save_analyser

A viewer for Sons of the Forest save files. A save's `SaveData.json` holds
a `Data` object whose string values are often JSON documents themselves;
the library turns that object into a tree of stores (a field with either a
displayable payload or nested stores), renders the tree as indented text
lines, and keeps the bookkeeping of the analysis windows.

Layout:

- `src/json.rs` – the JSON model, and the calls into serde_json (parsing
  and pretty printing) with their contracts.
- `src/text.rs` – decimal rendering of integers.
- `src/deserializer.rs` – the store tree, its specification, payload text,
  and the reading of a save's `Data` entry.
- `src/walker.rs` – the indented walks (printed and viewer) and the summary
  walk.
- `src/app.rs` – window state: opening windows, planning each frame's work,
  and applying what the frame reported.
- `app/` – file reading, printing, the folder picker and the egui windows.
