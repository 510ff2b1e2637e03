//! Properties of the metadata reader that hold of every document.
use vstd::prelude::*;
use crate::metadata::{FormatModel, MetadataModel, empty_descriptor, empty_metadata};
use crate::schema::{
    apply_territory_attribute, lemma_format_advances, lemma_ignore_advances,
    lemma_territories_advances, set_descriptor, spec_format, spec_format_attributes,
    spec_format_body, spec_formats, spec_ignore, spec_metadata, spec_metadata_from,
    spec_territories, spec_territory, spec_territory_attributes, spec_territory_body, add_format,
    international_of,
};
use crate::xml::{DocumentView, XmlAttributeView, XmlEventView};

verus! {

proof fn lemma_format_body_international(d: DocumentView, k: nat, name: Seq<u8>, f: FormatModel, international: Option<Seq<char>>)
    ensures
        spec_format_body(d, k, name, f, international) matches Ok(((national, intl), _))
            ==> exists|v: Option<Seq<char>>| intl == international_of(national, v),
    decreases d.events.len() - k,
{
    reveal(spec_format_body);
    if k < d.events.len() {
        match d.events[k as int] {
            XmlEventView::Start { name: n, .. } => {
                if let Ok((t, p)) = crate::schema::spec_text(d, k + 1, n, Seq::empty()) {
                    crate::schema::lemma_text_advances(d, k + 1, n, Seq::empty());
                    let (f2, i2) = crate::schema::format_child(f, international, n, t);
                    lemma_format_body_international(d, p, name, f2, i2);
                }
            },
            XmlEventView::End { .. } => {},
            XmlEventView::Eof => {},
            _ => lemma_format_body_international(d, k + 1, name, f, international),
        }
    }
}

/// The international format that a `numberFormat` element gives, when it
/// gives one, is its national format with another pattern: the two differ in
/// the `format` field alone.
pub proof fn law_international_format_is_national_with_other_pattern(
    d: DocumentView,
    k: nat,
    name: Seq<u8>,
    attributes: Seq<Result<XmlAttributeView, Seq<char>>>,
    defaults: FormatModel,
)
    ensures
        spec_format(d, k, name, attributes, defaults) matches Ok(((national, Some(international)), _))
            ==> (international.format is Some && international == (FormatModel { format: international.format, ..national })),
{
    if let Ok(f) = spec_format_attributes(attributes, defaults) {
        lemma_format_body_international(d, k, name, f, None);
    }
}

proof fn lemma_formats_lengths(
    d: DocumentView,
    k: nat,
    name: Seq<u8>,
    defaults: FormatModel,
    lists: (Seq<FormatModel>, Seq<FormatModel>),
)
    requires
        lists.1.len() <= lists.0.len(),
    ensures
        spec_formats(d, k, name, defaults, lists) matches Ok(((national, international), _))
            ==> international.len() <= national.len(),
    decreases d.events.len() - k,
{
    reveal(spec_formats);
    if k < d.events.len() {
        match d.events[k as int] {
            XmlEventView::Start { name: n, attributes } => {
                if let Ok((read, p)) = spec_format(d, k + 1, n, attributes, defaults) {
                    lemma_format_advances(d, k + 1, n, attributes, defaults);
                    lemma_formats_lengths(d, p, name, defaults, add_format(lists, read));
                }
            },
            XmlEventView::End { .. } => {},
            XmlEventView::Eof => {},
            _ => lemma_formats_lengths(d, k + 1, name, defaults, lists),
        }
    }
}

/// Reading an `availableFormats` element never gives more international
/// formats than national ones.
pub proof fn law_international_formats_not_more_than_national(d: DocumentView, k: nat, name: Seq<u8>, defaults: FormatModel)
    ensures
        spec_formats(d, k, name, defaults, (Seq::empty(), Seq::empty())) matches Ok(((national, international), _))
            ==> international.len() <= national.len(),
{
    lemma_formats_lengths(d, k, name, defaults, (Seq::empty(), Seq::empty()));
}

/// Skipping is compositional: skipping from position `k` with the elements
/// `outer + inner` open is skipping out of `inner`, then out of `outer`. In
/// particular, skipping an element child by child, each child with its own
/// contents, is the same as skipping it in one pass.
pub proof fn law_skipping_composes(d: DocumentView, k: nat, outer: Seq<Seq<u8>>, inner: Seq<Seq<u8>>)
    requires
        outer.len() > 0,
        inner.len() > 0,
    ensures
        spec_ignore(d, k, outer + inner) == match spec_ignore(d, k, inner) {
            Ok(p) => spec_ignore(d, p, outer),
            Err(e) => Err(e),
        },
    decreases d.events.len() - k,
{
    reveal(spec_ignore);
    if k < d.events.len() {
        match d.events[k as int] {
            XmlEventView::Start { name: n, .. } => {
                assert((outer + inner).push(n) =~= outer + inner.push(n));
                law_skipping_composes(d, k + 1, outer, inner.push(n));
            },
            XmlEventView::End { name: n } => {
                assert((outer + inner).last() == inner.last());
                if n == inner.last() {
                    if inner.len() == 1 {
                        assert((outer + inner).drop_last() =~= outer);
                    } else {
                        assert((outer + inner).drop_last() =~= outer + inner.drop_last());
                        law_skipping_composes(d, k + 1, outer, inner.drop_last());
                    }
                }
            },
            XmlEventView::Eof => {},
            _ => law_skipping_composes(d, k + 1, outer, inner),
        }
    }
}

proof fn lemma_metadata_from_failed(d: DocumentView, k: nat, list: Seq<MetadataModel>)
    requires
        d.failure is Some,
        forall|i: int| 0 <= i < d.events.len() ==> !(#[trigger] d.events[i] is Eof),
    ensures
        spec_metadata_from(d, k, list) is Err,
    decreases d.events.len() - k,
{
    reveal(spec_metadata_from);
    if k < d.events.len() {
        assert(!(d.events[k as int] is Eof));
        match d.events[k as int] {
            XmlEventView::Start { name: n, .. } => {
                lemma_ignore_advances(d, k + 1, seq![n]);
                lemma_territories_advances(d, k + 1, Seq::empty());
                if let Ok((found, p)) = spec_territories(d, k + 1, Seq::empty()) {
                    lemma_metadata_from_failed(d, p, list + found);
                }
                if let Ok(p) = spec_ignore(d, k + 1, seq![n]) {
                    lemma_metadata_from_failed(d, p, list);
                }
                lemma_metadata_from_failed(d, k + 1, list);
            },
            _ => lemma_metadata_from_failed(d, k + 1, list),
        }
    }
}

/// A document on which the tokenizer failed never loads: reading it ends in
/// an error, whatever came before the failure.
pub proof fn law_malformed_document_never_loads(d: DocumentView)
    requires
        d.failure is Some,
        forall|i: int| 0 <= i < d.events.len() ==> !(#[trigger] d.events[i] is Eof),
    ensures
        spec_metadata(d) is Err,
{
    lemma_metadata_from_failed(d, 0, Seq::empty());
}

proof fn lemma_attributes_keep_default_descriptor(attributes: Seq<Result<XmlAttributeView, Seq<char>>>, m: MetadataModel)
    ensures
        spec_territory_attributes(attributes, m) matches Ok(r) ==> {
            &&& r.defaults.descriptor == m.defaults.descriptor
            &&& r.short_code == m.short_code
            &&& r.standard_rate == m.standard_rate
            &&& r.carrier == m.carrier
        },
    decreases attributes.len(),
{
    reveal(spec_territory_attributes);
    reveal(apply_territory_attribute);
    if attributes.len() > 0 {
        if let Ok(a) = attributes[0] {
            if let Ok(next) = apply_territory_attribute(m, a.key, a.value) {
                lemma_attributes_keep_default_descriptor(attributes.drop_first(), next);
            }
        }
    }
}

proof fn lemma_body_keeps_defaults(d: DocumentView, k: nat, m: MetadataModel)
    ensures
        spec_territory_body(d, k, m) matches Ok((r, _)) ==> {
            &&& r.defaults == m.defaults
            &&& r.short_code == m.short_code
            &&& r.standard_rate == m.standard_rate
            &&& r.carrier == m.carrier
        },
    decreases d.events.len() - k,
{
    reveal(spec_territory_body);
    reveal(set_descriptor);
    if k < d.events.len() {
        match d.events[k as int] {
            XmlEventView::Start { name: n, .. } => {
                crate::schema::lemma_ignore_advances(d, k + 1, seq![n]);
                crate::schema::lemma_descriptor_advances(d, k + 1, n, m.defaults.descriptor);
                crate::schema::lemma_formats_advances(d, k + 1, n, m.defaults.format, (Seq::empty(), Seq::empty()));
                if let Ok(p) = spec_ignore(d, k + 1, seq![n]) {
                    lemma_body_keeps_defaults(d, p, m);
                }
                if let Ok((desc, p)) = crate::schema::spec_descriptor(d, k + 1, n, m.defaults.descriptor) {
                    lemma_body_keeps_defaults(d, p, set_descriptor(m, n, desc));
                }
                if let Ok((lists, p)) = spec_formats(d, k + 1, n, m.defaults.format, (Seq::empty(), Seq::empty())) {
                    lemma_body_keeps_defaults(d, p, MetadataModel { format: lists.0, international_format: lists.1, ..m });
                }
            },
            XmlEventView::End { .. } => {},
            XmlEventView::Eof => {},
            _ => lemma_body_keeps_defaults(d, k + 1, m),
        }
    }
}

/// No attribute or child of a territory sets its default descriptor, its
/// short code, standard rate or carrier descriptor: the descriptors of every
/// territory start from an empty one, and those three stay unset.
pub proof fn law_default_descriptor_stays_empty(d: DocumentView, k: nat, attributes: Seq<Result<XmlAttributeView, Seq<char>>>)
    ensures
        spec_territory(d, k, attributes) matches Ok((m, _)) ==> {
            &&& m.defaults.descriptor == empty_descriptor()
            &&& m.short_code is None
            &&& m.standard_rate is None
            &&& m.carrier is None
        },
{
    lemma_attributes_keep_default_descriptor(attributes, empty_metadata());
    if let Ok(m) = spec_territory_attributes(attributes, empty_metadata()) {
        lemma_body_keeps_defaults(d, k, m);
    }
}

} // verus!
