# molaxis

Verified data reduction for a Coulomb-explosion imaging experiment.

- `src/` is the library, verified with Verus: decoding of multichannel-scaler
  list files (`mcs1`), charge assignment of detector spots (`point_pair`),
  pairing of spots into two-fragment events (`img_integrate`), energy spectra
  (`analyze`), the directory layout of the data stages (`mylib::file_names`,
  `file_names`), numerals (`numeral`), and the trusted boundary to
  `std::path` (`paths`) and to the `regex` crate (`pattern`).
- `app/` holds the three command-line programs (`mcs1`, `img_integrate`,
  `analyze`): file reading and writing, CSV input, and the floating-point
  angle computation.
- `tests/` exercises the library on concrete inputs.
