# tinker_pdf

The decision logic of a PDF engine's facade, written in Verus and proved
against its contracts: what a signature's `/ByteRange` covers and what a
verdict on it says, which dictionaries are signatures, how a logical structure
tree is walked and joined with a page's text, how redaction cuts a run and
names what it could not measure, how font subsetting plans, reports and names
its programs, how an XPS package is recognised and planned, and the byte-level
rules these rest on.

## Layout

- `src/` — the verified library, one module per area: `signature`, `verdict`,
  `structure` (the `/K` walk) and `join` (structure order for one page),
  `redact`, `subset`, `write`, `xps`, `render_part`, `resources`,
  `color_space` (which colour space a resource name selects), `shaping`,
  and `text` for the byte and string helpers they share.
- `tests/` — the library's tests, one file per module.
- `app/` — the edges around it: reading the object model, the content
  interpreter and the PKI layer into the values the library takes, the
  floating-point geometry of redaction, XPS pages and shaped runs, and
  `Display` for the library's messages.

Each public function states its result in `ensures` over spec functions and
views; the properties that relate several calls are public proof functions
whose names say what they prove (`lemma_the_walk_is_bounded`,
`lemma_each_dictionary_is_read_once`, `lemma_nodes_carry_only_claimed_characters`,
and the rest).
