# zxing

A local QR and 1D barcode decoder command line tool (`zxing dec [OPTIONS]
<IMAGE>...`) built on the `rxing` port of ZXing, with its decisions verified
by Verus.

- `src/` is the verified library:
  - `barcode.rs`: the symbologies, their output names and the `--only` names;
  - `escape.rs`: JSON and TSV escaping, with the JSON round trip proved;
  - `format.rs`: the byte-exact `txt`, `json` and `tsv` renderers;
  - `json.rs`: a model of JSON documents and a reader, with the proof that
    the `json` output reads back as the document it describes;
  - `decode.rs`: decoder hints, the passes run over an image and how their
    outcomes combine;
  - `cli.rs`: the command line, `--files-from` path lists and exit status;
  - `strings.rs`: the few standard string functions the rest relies on.
- `app/main.rs` is the binary: it reads arguments, files and images, calls
  the rxing readers, and writes what the library renders.
- `tests/` exercises the library on concrete values.
