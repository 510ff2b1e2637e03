# phonenumber metadata

Loads the phone number metadata of territories from the XML metadata document
(`PhoneNumberMetadata.xml`), with the reading of the document verified by Verus.

- `src/xml.rs`: tokenizes the input with quick-xml into plain XML events.
- `src/schema.rs`: what a metadata document means, as spec functions over its events.
- `src/loader.rs`: the reader (`load`, `metadata`), proved to follow `schema`.
- `src/metadata.rs`: the metadata types and their mathematical models.
- `src/text.rs`: byte strings, UTF-8 decoding, number and boolean attributes.
- `src/laws.rs`: properties of the reader that hold of every document.
- `app/`: reading a metadata document from a stream, and serde copies of the types.

The natural-language phone number parser (`phone_number`) is not part of this
crate: it is built from a number extractor, a `Number` type and an extension
pattern that are not available here, so only the metadata loader is provided.
The fields of `Defaults` are public so that `app/` can convert the types to and
from their serializable copies.
