# autoeval_cna

The rules of the CNA self-evaluation question bank, written in Verus and
proved against their contracts: how audiences (públicos and subpúblicos) are
normalized, how the consolidated workbook is read into questions and
guideline aspects (including the colour marks read out of the XLSX
archive), how the bank compares with its original baseline, how
instruments are grouped and laid out, how provider reviews are kept and
reported, how the Microsoft sign-in callback is answered, and how
collaboration locks behave.

## Layout

- `src/` — the verified library, one module per concern:
  `text`, `audience`, `domain`, `sort`, `columns`, `importer`, `marks`,
  `xlsx`, `xlsx_archive`, `workbook`, `baseline`, `bank`, `collab`,
  `validation`, `export`, `provider`, `instruments`, `files`, `signin`.
- `tests/` — tests of the library on concrete values.
- `app/` — the desktop side in ordinary Rust: reading files and sockets,
  calamine's cell values, the libSQL/Turso repository and its SQL, the Excel
  and Word writers, workspace settings, and the HTTP calls of the Microsoft
  sign-in and Graph copy. Float values (cell numbers, row heights and column
  widths) and platform path handling also stay there.

The calls into outside crates that the library makes (SHA-256, base64,
random identifiers, case mapping, the zip archive reader, the XML reader,
URL parsing) go through small trusted wrappers whose contracts are stated
next to them.
