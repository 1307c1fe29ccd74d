# xmip-core-transport-peppol

Peppol business documents over AS4, as a verified library: one business
document travels inside a Standard Business Document whose header names
its participants, its document type and its process, and the access point
at each end decides what it sends, what it takes and what it hands up.

- `src/` is the library, proved with Verus:
  - `participant`: participant identifiers and the directory of access points;
  - `sbdh`: identifiers, the header, and wrapping and unwrapping a business document;
  - `access_point`: resolving a target, the User Message shape, the profile check,
    what a send posts and what an arrival hands up;
  - `loopback`: both ends on one machine;
  - `xml`, `written`, `text`: escaping, reading elements by local name, and what
    the written pieces read back as;
  - `laws`: what holds across the functions, such as that an unwrapped Standard
    Business Document gives back the header and the business document it was
    made of.
- `tests/` runs the library on concrete values.
- `app/` drives the library through the as4 technology: listening, posting,
  receipts and signatures.
