# ofd-rs

Writes OFD (Open Fixed-layout Document, GB/T 33190-2016) packages with one
image per page. An OFD package is a ZIP archive of XML descriptors
(`OFD.xml`, `Doc_0/Document.xml`, `Doc_0/DocumentRes.xml`, one
`Content.xml` per page) and the embedded images.

The library is verified with Verus:

- `src/text.rs`: decimal, zero-padded and fixed-point number text, XML
  escaping.
- `src/types.rs`: boxes and points as OFD writes them; lengths are
  fixed-point, one unit being a ten-thousandth of a millimetre.
- `src/model/`: page sizes, image formats, header sniffing for PNG, JPEG and
  BMP dimensions, document metadata.
- `src/writer/xml_gen.rs`: each XML part, stated exactly as text.
- `src/writer/calendar.rs`: civil dates from day counts, with the inverse
  proved.
- `src/writer/builder.rs`: `ImageSource` and `OfdWriter`; `build` is proved
  to hand the ZIP writer exactly the files of `package_files`, in order,
  and to succeed whenever each of them is within `MAX_ENTRY_BYTES`, before
  and after compression.
- `src/writer/archive.rs`: the trusted boundary to the `zip` crate.

`app/` holds what takes floating point or the file system: page sizes in
millimetres as `f64`, and an example that turns image files into an OFD
file.
