# argos

Recovery of deleted JPEG and PNG images from raw media, with its core
verified by Verus.

- `src/` is the verified library: sector and byte geometry, the reader that
  turns a sector-addressed medium into a byte stream, the acquisition state
  machine, the JPEG parsers (strict and resynchronising), validators,
  Huffman and restart-marker readers, the PNG chunk parser, validator and
  CRC repair, signature scanning, carve plans, header/footer pairing
  evidence, device naming, mount tables and device ordering. Each public
  function states its result in `requires`/`ensures` over spec functions,
  and the properties that span functions are public proof functions.
- `app/` is the unverified shell around it: device and file I/O, the
  acquisition driver, device enumeration, and everything scored in
  floating point (entropy, image statistics, fragment matching and
  stitching).
- `tests/` exercises the library on concrete values.

The only calls into outside crates that the library makes are a substring
search (`memchr`), behind a small function whose contract states what the
crate documents, and an image decode (`image`), of whose outcome nothing is
claimed: the verdict on whatever the decode gives is a verified function
of that outcome.
