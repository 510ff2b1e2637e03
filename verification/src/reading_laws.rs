//! What the readers of a document, of a `territories` element, of a
//! descriptor and of an element's text contribute, stated by how their
//! results relate: each piece read is added in document order, whatever was
//! read before it, and each field is set by its own child alone.
use vstd::prelude::*;
use vstd::utf8::*;
use crate::error::ErrorModel;
use crate::metadata::{DescriptorModel, MetadataModel};
use crate::schema::{
    spec_descriptor, spec_ignore, spec_metadata_from, spec_territories, spec_territory, spec_text,
    set_descriptor_text, lemma_territories_advances, lemma_territory_advances, lemma_ignore_advances,
    lemma_text_advances, unhandled_element,
};
use crate::text::utf8_bytes;
use crate::xml::{DocumentView, XmlAttributeView, XmlEventView};

verus! {

/// Distinct texts have distinct UTF-8 encodings.
pub proof fn lemma_utf8_bytes_injective()
    ensures
        forall|a: &str, b: &str| #![trigger utf8_bytes(a), utf8_bytes(b)]
            utf8_bytes(a) == utf8_bytes(b) ==> a@ == b@,
{
    assert forall|a: &str, b: &str| utf8_bytes(a) == utf8_bytes(b) implies a@ == b@ by {
        encode_utf8_decode_utf8(a@);
        encode_utf8_decode_utf8(b@);
    }
}

/// A read that starts from `list` gives `list` followed by what the same read
/// gives from nothing.
pub open spec fn prepended(list: Seq<MetadataModel>, r: Result<(Seq<MetadataModel>, nat), ErrorModel>) -> Result<(Seq<MetadataModel>, nat), ErrorModel> {
    match r {
        Ok((found, p)) => Ok((list + found, p)),
        Err(e) => Err(e),
    }
}

/// Reading a `territories` element only appends to what was read before it:
/// the territories found do not depend on the list they are added to.
pub proof fn law_territories_append(d: DocumentView, k: nat, list: Seq<MetadataModel>)
    ensures
        spec_territories(d, k, list) == prepended(list, spec_territories(d, k, Seq::empty())),
    decreases d.events.len() - k,
{
    reveal(spec_territories);
    if k < d.events.len() {
        match d.events[k as int] {
            XmlEventView::Start { name: n, attributes } => if n == utf8_bytes("territory") {
                lemma_territory_advances(d, k + 1, attributes);
                if let Ok((m, p)) = spec_territory(d, k + 1, attributes) {
                    law_territories_append(d, p, list.push(m));
                    law_territories_append(d, p, seq![m]);
                    if let Ok((found, q)) = spec_territories(d, p, Seq::empty()) {
                        assert(list.push(m) + found =~= list + (seq![m] + found));
                    }
                    assert(Seq::<MetadataModel>::empty().push(m) =~= seq![m]);
                }
            } else {
                lemma_ignore_advances(d, k + 1, seq![n]);
                if let Ok(p) = spec_ignore(d, k + 1, seq![n]) {
                    law_territories_append(d, p, list);
                }
            },
            XmlEventView::End { .. } => {
                assert(list + Seq::<MetadataModel>::empty() =~= list);
            },
            XmlEventView::Eof => {},
            _ => law_territories_append(d, k + 1, list),
        }
    }
}

/// Every `territory` child of a `territories` element gives exactly one
/// metadata, its own, ahead of what the children after it give, whatever the
/// ids: reading from a `territory` start tag is that territory followed by
/// the rest.
pub proof fn law_each_territory_gives_one(d: DocumentView, k: nat, attributes: Seq<Result<XmlAttributeView, Seq<char>>>, m: MetadataModel, p: nat)
    requires
        k < d.events.len(),
        d.events[k as int] == (XmlEventView::Start { name: utf8_bytes("territory"), attributes }),
        spec_territory(d, k + 1, attributes) == Ok::<_, ErrorModel>((m, p)),
    ensures
        spec_territories(d, k, Seq::empty()) == prepended(seq![m], spec_territories(d, p, Seq::empty())),
{
    reveal(spec_territories);
    lemma_territory_advances(d, k + 1, attributes);
    law_territories_append(d, p, seq![m]);
    assert(Seq::<MetadataModel>::empty().push(m) =~= seq![m]);
}

/// Any other child element of a `territories` element gives nothing.
pub proof fn law_other_children_give_nothing(d: DocumentView, k: nat, n: Seq<u8>, attributes: Seq<Result<XmlAttributeView, Seq<char>>>, p: nat)
    requires
        k < d.events.len(),
        d.events[k as int] == (XmlEventView::Start { name: n, attributes }),
        n != utf8_bytes("territory"),
        spec_ignore(d, k + 1, seq![n]) == Ok::<_, ErrorModel>(p),
    ensures
        spec_territories(d, k, Seq::empty()) == spec_territories(d, p, Seq::empty()),
{
    reveal(spec_territories);
    lemma_ignore_advances(d, k + 1, seq![n]);
}

/// The end tag of the `territories` element ends reading with nothing more.
pub proof fn law_territories_end(d: DocumentView, k: nat)
    requires
        k < d.events.len(),
        d.events[k as int] == (XmlEventView::End { name: utf8_bytes("territories") }),
    ensures
        spec_territories(d, k, Seq::empty()) == Ok::<_, ErrorModel>((Seq::<MetadataModel>::empty(), k + 1)),
{
    reveal(spec_territories);
}

/// `desc` with neither a national number pattern nor an example.
pub open spec fn blank(desc: DescriptorModel) -> DescriptorModel {
    DescriptorModel { national_number: None, example: None, ..desc }
}

/// `first`, or `second` where `first` is `None`.
pub open spec fn first_of(first: Option<Seq<char>>, second: Option<Seq<char>>) -> Option<Seq<char>> {
    match first {
        Some(v) => Some(v),
        None => second,
    }
}

/// What a descriptor read gives from `desc`, given what the same read gives
/// from `desc` blanked: the pattern and the example that were read, and
/// where one was not read, the one of `desc`; the rest is `desc`'s.
pub open spec fn over(desc: DescriptorModel, r: Result<(DescriptorModel, nat), ErrorModel>) -> Result<(DescriptorModel, nat), ErrorModel> {
    match r {
        Ok((read, p)) => Ok((
            DescriptorModel {
                national_number: first_of(read.national_number, desc.national_number),
                example: first_of(read.example, desc.example),
                ..desc
            },
            p,
        )),
        Err(e) => Err(e),
    }
}

/// Reading a descriptor sets the national number pattern and the example
/// from its children and touches nothing else: each field keeps the value it
/// started with unless a child of its own gives it one, whatever the other
/// children are.
pub proof fn law_descriptor_fields_independent(d: DocumentView, k: nat, name: Seq<u8>, desc: DescriptorModel)
    ensures
        spec_descriptor(d, k, name, desc) == over(desc, spec_descriptor(d, k, name, blank(desc))),
    decreases d.events.len() - k,
{
    reveal(spec_descriptor);
    if k < d.events.len() {
        match d.events[k as int] {
            XmlEventView::Start { name: n, .. } => {
                if n == utf8_bytes("nationalNumberPattern") || n == utf8_bytes("exampleNumber") {
                    lemma_text_advances(d, k + 1, n, Seq::empty());
                    if let Ok((t, p)) = spec_text(d, k + 1, n, Seq::empty()) {
                        let set_full = set_descriptor_text(desc, n, t);
                        let set_blank = set_descriptor_text(blank(desc), n, t);
                        assert(blank(set_full) == blank(desc));
                        assert(blank(set_blank) == blank(desc));
                        law_descriptor_fields_independent(d, p, name, set_full);
                        law_descriptor_fields_independent(d, p, name, set_blank);
                    }
                }
            },
            XmlEventView::End { .. } => {},
            XmlEventView::Eof => {},
            _ => law_descriptor_fields_independent(d, k + 1, name, desc),
        }
    }
}

/// A `nationalNumberPattern` child of a descriptor sets the national number
/// pattern to its text and leaves every other field as it was.
pub proof fn law_descriptor_pattern_child(
    d: DocumentView,
    k: nat,
    name: Seq<u8>,
    desc: DescriptorModel,
    attributes: Seq<Result<XmlAttributeView, Seq<char>>>,
    t: Seq<char>,
    p: nat,
)
    requires
        k < d.events.len(),
        d.events[k as int] == (XmlEventView::Start { name: utf8_bytes("nationalNumberPattern"), attributes }),
        spec_text(d, k + 1, utf8_bytes("nationalNumberPattern"), Seq::empty()) == Ok::<_, ErrorModel>((t, p)),
    ensures
        spec_descriptor(d, k, name, desc)
            == spec_descriptor(d, p, name, DescriptorModel { national_number: Some(t), ..desc }),
{
    reveal(spec_descriptor);
    lemma_text_advances(d, k + 1, utf8_bytes("nationalNumberPattern"), Seq::empty());
}

/// An `exampleNumber` child of a descriptor sets the example to its text and
/// leaves every other field, the national number pattern among them, as it
/// was.
pub proof fn law_descriptor_example_child(
    d: DocumentView,
    k: nat,
    name: Seq<u8>,
    desc: DescriptorModel,
    attributes: Seq<Result<XmlAttributeView, Seq<char>>>,
    t: Seq<char>,
    p: nat,
)
    requires
        k < d.events.len(),
        d.events[k as int] == (XmlEventView::Start { name: utf8_bytes("exampleNumber"), attributes }),
        spec_text(d, k + 1, utf8_bytes("exampleNumber"), Seq::empty()) == Ok::<_, ErrorModel>((t, p)),
    ensures
        spec_descriptor(d, k, name, desc)
            == spec_descriptor(d, p, name, DescriptorModel { example: Some(t), ..desc }),
{
    reveal(spec_descriptor);
    lemma_text_advances(d, k + 1, utf8_bytes("exampleNumber"), Seq::empty());
    lemma_utf8_bytes_injective();
    reveal_strlit("exampleNumber");
    reveal_strlit("nationalNumberPattern");
    assert(utf8_bytes("exampleNumber") != utf8_bytes("nationalNumberPattern"));
}


/// A read of a whole document that starts from `list`: `list` followed by
/// what the same read gives from nothing.
pub open spec fn document_prepended(list: Seq<MetadataModel>, r: Result<Seq<MetadataModel>, ErrorModel>) -> Result<Seq<MetadataModel>, ErrorModel> {
    match r {
        Ok(found) => Ok(list + found),
        Err(e) => Err(e),
    }
}

/// Reading the rest of a document only appends to the territories read
/// before: what follows does not depend on what was read.
pub proof fn law_document_append(d: DocumentView, k: nat, list: Seq<MetadataModel>)
    ensures
        spec_metadata_from(d, k, list) == document_prepended(list, spec_metadata_from(d, k, Seq::empty())),
    decreases d.events.len() - k,
{
    reveal(spec_metadata_from);
    if k >= d.events.len() {
        assert(list + Seq::<MetadataModel>::empty() =~= list);
    } else {
        match d.events[k as int] {
            XmlEventView::Eof => {
                assert(list + Seq::<MetadataModel>::empty() =~= list);
            },
            XmlEventView::Start { name: n, .. } => if n == utf8_bytes("phoneNumberMetadata") {
                law_document_append(d, k + 1, list);
            } else if n == utf8_bytes("territories") {
                lemma_territories_advances(d, k + 1, Seq::empty());
                if let Ok((found, p)) = spec_territories(d, k + 1, Seq::empty()) {
                    law_document_append(d, p, list + found);
                    law_document_append(d, p, Seq::<MetadataModel>::empty() + found);
                    if let Ok(rest) = spec_metadata_from(d, p, Seq::empty()) {
                        assert((list + found) + rest =~= list + ((Seq::<MetadataModel>::empty() + found) + rest));
                    }
                }
            } else {
                lemma_ignore_advances(d, k + 1, seq![n]);
                if let Ok(p) = spec_ignore(d, k + 1, seq![n]) {
                    law_document_append(d, p, list);
                }
            },
            XmlEventView::End { .. } => law_document_append(d, k + 1, list),
            _ => law_document_append(d, k + 1, list),
        }
    }
}

/// Each `territories` element of a document gives its territories, in
/// order, ahead of those of the elements after it.
pub proof fn law_each_territories_element_adds_its_own(
    d: DocumentView,
    k: nat,
    attributes: Seq<Result<XmlAttributeView, Seq<char>>>,
    found: Seq<MetadataModel>,
    p: nat,
)
    requires
        k < d.events.len(),
        d.events[k as int] == (XmlEventView::Start { name: utf8_bytes("territories"), attributes }),
        spec_territories(d, k + 1, Seq::empty()) == Ok::<_, ErrorModel>((found, p)),
    ensures
        spec_metadata_from(d, k, Seq::empty()) == document_prepended(found, spec_metadata_from(d, p, Seq::empty())),
{
    reveal(spec_metadata_from);
    lemma_territories_advances(d, k + 1, Seq::empty());
    lemma_utf8_bytes_injective();
    reveal_strlit("territories");
    reveal_strlit("phoneNumberMetadata");
    assert(Seq::<MetadataModel>::empty() + found =~= found);
    law_document_append(d, p, found);
}


/// A text read that starts from `acc`: `acc` followed by what the same read
/// gives from nothing.
pub open spec fn text_prepended(acc: Seq<char>, r: Result<(Seq<char>, nat), ErrorModel>) -> Result<(Seq<char>, nat), ErrorModel> {
    match r {
        Ok((t, p)) => Ok((acc + t, p)),
        Err(e) => Err(e),
    }
}

/// The text of an element is all its text pieces, in order: reading on from
/// what was read so far appends to it.
pub proof fn law_text_append(d: DocumentView, k: nat, name: Seq<u8>, acc: Seq<char>)
    ensures
        spec_text(d, k, name, acc) == text_prepended(acc, spec_text(d, k, name, Seq::empty())),
    decreases d.events.len() - k,
{
    reveal(spec_text);
    if k < d.events.len() {
        match d.events[k as int] {
            XmlEventView::Text { content } => if valid_utf8(content) {
                let c = decode_utf8(content);
                law_text_append(d, k + 1, name, acc + c);
                law_text_append(d, k + 1, name, Seq::<char>::empty() + c);
                if let Ok((t, q)) = spec_text(d, k + 1, name, Seq::empty()) {
                    assert((acc + c) + t =~= acc + ((Seq::<char>::empty() + c) + t));
                }
            },
            XmlEventView::End { .. } => {
                assert(acc + Seq::<char>::empty() =~= acc);
            },
            XmlEventView::Eof => {},
            _ => law_text_append(d, k + 1, name, acc),
        }
    }
}

/// Each piece of text inside an element is part of its text, ahead of the
/// pieces after it.
pub proof fn law_text_piece(d: DocumentView, k: nat, name: Seq<u8>, content: Seq<u8>)
    requires
        k < d.events.len(),
        d.events[k as int] == (XmlEventView::Text { content }),
        valid_utf8(content),
    ensures
        spec_text(d, k, name, Seq::empty()) == text_prepended(decode_utf8(content), spec_text(d, k + 1, name, Seq::empty())),
{
    reveal(spec_text);
    assert(Seq::<char>::empty() + decode_utf8(content) =~= decode_utf8(content));
    law_text_append(d, k + 1, name, decode_utf8(content));
}


/// A child element of a descriptor other than `nationalNumberPattern` and
/// `exampleNumber` is refused with an error that names it.
pub proof fn law_descriptor_unknown_child(
    d: DocumentView,
    k: nat,
    name: Seq<u8>,
    desc: DescriptorModel,
    n: Seq<u8>,
    attributes: Seq<Result<XmlAttributeView, Seq<char>>>,
)
    requires
        k < d.events.len(),
        d.events[k as int] == (XmlEventView::Start { name: n, attributes }),
        n != utf8_bytes("nationalNumberPattern"),
        n != utf8_bytes("exampleNumber"),
    ensures
        spec_descriptor(d, k, name, desc) == Err::<(DescriptorModel, nat), _>(unhandled_element("descriptor"@, n)),
{
    reveal(spec_descriptor);
}

} // verus!
