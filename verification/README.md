# inkdrop

Drag a PDF onto a printer icon and it prints, via IPP. Printers are found on
the local network via mDNS, or named by URI, and only those that handle PDF,
URF or PWG-Raster are listed. When a printer doesn't take PDF directly, the PDF
is rasterised locally and sent as PWG-Raster instead.

The rules are a library that is verified with Verus; the programs around it are
ordinary Rust.

- `src/` is the library. What each function returns or changes is stated in its
  contract and proved; properties that span functions are the proof functions
  named `law_...`. Calls into other crates stand behind functions and
  declarations whose contracts say what is relied on.
  - `raster`, `compression`, `points`, `pdf`: rendered pages as PWG-Raster.
  - `printing`, `pipeline`, `request`, `message`: asking a printer what it
    takes, deciding how to send a PDF, and what became of the job.
  - `discovery`, `table`, `uri`: which printers are listed.
  - `server`, `cli`: what the web server answers and the command reports.
  - `simulator`: a printer that uses no paper: it answers requests, names the
    files that jobs are kept in, and decodes rasters back into pictures.
  - `buffer`, `path`, `text`: byte buffers, file paths and strings.
- `app/` holds the programs: the web server `inkdrop`, the command
  `inkdrop-print` and the simulated printer `printer-sim`, told apart by the
  name they are run under. It does the I/O: HTTP, mDNS, files and PDFium.
- `tests/` runs the library with the other crates linked.
