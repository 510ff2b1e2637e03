//! Events that no reader looks at (comments, declarations, processing
//! instructions, CDATA, self-closing tags) never change what is read: putting
//! one anywhere in a document leaves its metadata, or its error, as it was.
use vstd::prelude::*;
use vstd::utf8::*;
use crate::error::ErrorModel;
use crate::metadata::{DescriptorModel, FormatModel, MetadataModel};
use crate::schema::{
    add_format, format_child, lemma_descriptor_advances, lemma_format_advances,
    lemma_formats_advances, lemma_ignore_advances, lemma_territories_advances,
    lemma_territory_advances, lemma_text_advances, set_descriptor, set_descriptor_text,
    descriptor_slot, skipped_in_territory, spec_descriptor, spec_format, spec_format_attributes,
    spec_format_body, spec_formats, spec_ignore, spec_metadata, spec_metadata_from,
    spec_territories, spec_territory, spec_territory_attributes, spec_territory_body, spec_text,
};
use crate::text::utf8_bytes;
use crate::xml::{DocumentView, XmlAttributeView, XmlEventView};

verus! {

/// `d` with an `Other` event put at position `j`.
pub open spec fn with_other(d: DocumentView, j: nat) -> DocumentView {
    DocumentView { events: d.events.insert(j as int, XmlEventView::Other), failure: d.failure }
}

/// Where position `p` of `d` is in `with_other(d, j)` once reading went past it.
pub open spec fn moved(p: nat, j: nat) -> nat {
    if p > j {
        p + 1
    } else {
        p
    }
}

/// Position `q` of `d` in `with_other(d, j)`: before the new event, or after it.
pub open spec fn place(q: nat, before: bool) -> nat {
    if before {
        q
    } else {
        q + 1
    }
}

pub open spec fn shifted<T>(r: Result<(T, nat), ErrorModel>, j: nat) -> Result<(T, nat), ErrorModel> {
    match r {
        Ok((v, p)) => Ok((v, moved(p, j))),
        Err(e) => Err(e),
    }
}

pub open spec fn shifted_end(r: Result<nat, ErrorModel>, j: nat) -> Result<nat, ErrorModel> {
    match r {
        Ok(p) => Ok(moved(p, j)),
        Err(e) => Err(e),
    }
}

proof fn lemma_same_event(d: DocumentView, j: nat, q: nat, before: bool)
    requires
        j <= d.events.len(),
        q < d.events.len(),
        before ==> q < j,
        !before ==> j <= q,
    ensures
        with_other(d, j).events.len() == d.events.len() + 1,
        with_other(d, j).events[place(q, before) as int] == d.events[q as int],
{
    d.events.insert_ensures(j as int, XmlEventView::Other);
}

proof fn lemma_new_event(d: DocumentView, j: nat)
    requires
        j <= d.events.len(),
    ensures
        with_other(d, j).events.len() == d.events.len() + 1,
        with_other(d, j).events[j as int] == XmlEventView::Other,
{
    d.events.insert_ensures(j as int, XmlEventView::Other);
}

proof fn lemma_text_other(d: DocumentView, j: nat, q: nat, before: bool, name: Seq<u8>, acc: Seq<char>)
    requires
        j <= d.events.len(),
        before ==> q <= j,
        !before ==> j <= q,
    ensures
        spec_text(with_other(d, j), place(q, before), name, acc) == shifted(spec_text(d, q, name, acc), j),
    decreases d.events.len() - q, if before { 1nat } else { 0nat },
{
    reveal(spec_text);
    let d2 = with_other(d, j);
    lemma_new_event(d, j);
    if before && q == j {
        lemma_text_other(d, j, q, false, name, acc);
    } else if q < d.events.len() {
        lemma_same_event(d, j, q, before);
        match d.events[q as int] {
            XmlEventView::Text { content } => if valid_utf8(content) {
                lemma_text_other(d, j, q + 1, before, name, acc + decode_utf8(content));
            },
            XmlEventView::End { .. } => {},
            XmlEventView::Eof => {},
            _ => lemma_text_other(d, j, q + 1, before, name, acc),
        }
    }
}

proof fn lemma_ignore_other(d: DocumentView, j: nat, q: nat, before: bool, open: Seq<Seq<u8>>)
    requires
        j <= d.events.len(),
        before ==> q <= j,
        !before ==> j <= q,
    ensures
        spec_ignore(with_other(d, j), place(q, before), open) == shifted_end(spec_ignore(d, q, open), j),
    decreases d.events.len() - q, if before { 1nat } else { 0nat },
{
    reveal(spec_ignore);
    lemma_new_event(d, j);
    if before && q == j {
        lemma_ignore_other(d, j, q, false, open);
    } else if q < d.events.len() {
        lemma_same_event(d, j, q, before);
        match d.events[q as int] {
            XmlEventView::Start { name: n, .. } => lemma_ignore_other(d, j, q + 1, before, open.push(n)),
            XmlEventView::End { name: n } => if open.len() > 1 && n == open.last() {
                lemma_ignore_other(d, j, q + 1, before, open.drop_last());
            },
            XmlEventView::Eof => {},
            _ => lemma_ignore_other(d, j, q + 1, before, open),
        }
    }
}

proof fn lemma_descriptor_other(d: DocumentView, j: nat, q: nat, before: bool, name: Seq<u8>, desc: DescriptorModel)
    requires
        j <= d.events.len(),
        before ==> q <= j,
        !before ==> j <= q,
    ensures
        spec_descriptor(with_other(d, j), place(q, before), name, desc) == shifted(spec_descriptor(d, q, name, desc), j),
    decreases d.events.len() - q, if before { 1nat } else { 0nat },
{
    reveal(spec_descriptor);
    lemma_new_event(d, j);
    if before && q == j {
        lemma_descriptor_other(d, j, q, false, name, desc);
    } else if q < d.events.len() {
        lemma_same_event(d, j, q, before);
        match d.events[q as int] {
            XmlEventView::Start { name: n, .. } => if n == utf8_bytes("nationalNumberPattern") || n == utf8_bytes("exampleNumber") {
                lemma_text_other(d, j, q + 1, before, n, Seq::empty());
                lemma_text_advances(d, q + 1, n, Seq::empty());
                if let Ok((t, p)) = spec_text(d, q + 1, n, Seq::empty()) {
                    lemma_descriptor_other(d, j, p, p <= j, name, set_descriptor_text(desc, n, t));
                }
            },
            XmlEventView::End { .. } => {},
            XmlEventView::Eof => {},
            _ => lemma_descriptor_other(d, j, q + 1, before, name, desc),
        }
    }
}

proof fn lemma_format_body_other(d: DocumentView, j: nat, q: nat, before: bool, name: Seq<u8>, f: FormatModel, international: Option<Seq<char>>)
    requires
        j <= d.events.len(),
        before ==> q <= j,
        !before ==> j <= q,
    ensures
        spec_format_body(with_other(d, j), place(q, before), name, f, international)
            == shifted(spec_format_body(d, q, name, f, international), j),
    decreases d.events.len() - q, if before { 1nat } else { 0nat },
{
    reveal(spec_format_body);
    lemma_new_event(d, j);
    if before && q == j {
        lemma_format_body_other(d, j, q, false, name, f, international);
    } else if q < d.events.len() {
        lemma_same_event(d, j, q, before);
        match d.events[q as int] {
            XmlEventView::Start { name: n, .. } => if n == utf8_bytes("leadingDigits") || n == utf8_bytes("format") || n == utf8_bytes("intlFormat") {
                lemma_text_other(d, j, q + 1, before, n, Seq::empty());
                lemma_text_advances(d, q + 1, n, Seq::empty());
                if let Ok((t, p)) = spec_text(d, q + 1, n, Seq::empty()) {
                    let (f2, i2) = format_child(f, international, n, t);
                    lemma_format_body_other(d, j, p, p <= j, name, f2, i2);
                }
            },
            XmlEventView::End { .. } => {},
            XmlEventView::Eof => {},
            _ => lemma_format_body_other(d, j, q + 1, before, name, f, international),
        }
    }
}

proof fn lemma_format_other(d: DocumentView, j: nat, q: nat, before: bool, name: Seq<u8>, attributes: Seq<Result<XmlAttributeView, Seq<char>>>, defaults: FormatModel)
    requires
        j <= d.events.len(),
        before ==> q <= j,
        !before ==> j <= q,
    ensures
        spec_format(with_other(d, j), place(q, before), name, attributes, defaults)
            == shifted(spec_format(d, q, name, attributes, defaults), j),
{
    if let Ok(f) = spec_format_attributes(attributes, defaults) {
        lemma_format_body_other(d, j, q, before, name, f, None);
    }
}

proof fn lemma_formats_other(d: DocumentView, j: nat, q: nat, before: bool, name: Seq<u8>, defaults: FormatModel, lists: (Seq<FormatModel>, Seq<FormatModel>))
    requires
        j <= d.events.len(),
        before ==> q <= j,
        !before ==> j <= q,
    ensures
        spec_formats(with_other(d, j), place(q, before), name, defaults, lists)
            == shifted(spec_formats(d, q, name, defaults, lists), j),
    decreases d.events.len() - q, if before { 1nat } else { 0nat },
{
    reveal(spec_formats);
    lemma_new_event(d, j);
    if before && q == j {
        lemma_formats_other(d, j, q, false, name, defaults, lists);
    } else if q < d.events.len() {
        lemma_same_event(d, j, q, before);
        match d.events[q as int] {
            XmlEventView::Start { name: n, attributes } => if n == utf8_bytes("numberFormat") {
                lemma_format_other(d, j, q + 1, before, n, attributes, defaults);
                lemma_format_advances(d, q + 1, n, attributes, defaults);
                if let Ok((read, p)) = spec_format(d, q + 1, n, attributes, defaults) {
                    lemma_formats_other(d, j, p, p <= j, name, defaults, add_format(lists, read));
                }
            },
            XmlEventView::End { .. } => {},
            XmlEventView::Eof => {},
            _ => lemma_formats_other(d, j, q + 1, before, name, defaults, lists),
        }
    }
}

proof fn lemma_territory_body_other(d: DocumentView, j: nat, q: nat, before: bool, m: MetadataModel)
    requires
        j <= d.events.len(),
        before ==> q <= j,
        !before ==> j <= q,
    ensures
        spec_territory_body(with_other(d, j), place(q, before), m) == shifted(spec_territory_body(d, q, m), j),
    decreases d.events.len() - q, if before { 1nat } else { 0nat },
{
    reveal(spec_territory_body);
    lemma_new_event(d, j);
    if before && q == j {
        lemma_territory_body_other(d, j, q, false, m);
    } else if q < d.events.len() {
        lemma_same_event(d, j, q, before);
        match d.events[q as int] {
            XmlEventView::Start { name: n, .. } => if skipped_in_territory(n) {
                lemma_ignore_other(d, j, q + 1, before, seq![n]);
                lemma_ignore_advances(d, q + 1, seq![n]);
                if let Ok(p) = spec_ignore(d, q + 1, seq![n]) {
                    lemma_territory_body_other(d, j, p, p <= j, m);
                }
            } else if descriptor_slot(n) {
                lemma_descriptor_other(d, j, q + 1, before, n, m.defaults.descriptor);
                lemma_descriptor_advances(d, q + 1, n, m.defaults.descriptor);
                if let Ok((desc, p)) = spec_descriptor(d, q + 1, n, m.defaults.descriptor) {
                    lemma_territory_body_other(d, j, p, p <= j, set_descriptor(m, n, desc));
                }
            } else if n == utf8_bytes("availableFormats") {
                lemma_formats_other(d, j, q + 1, before, n, m.defaults.format, (Seq::empty(), Seq::empty()));
                lemma_formats_advances(d, q + 1, n, m.defaults.format, (Seq::empty(), Seq::empty()));
                if let Ok((lists, p)) = spec_formats(d, q + 1, n, m.defaults.format, (Seq::empty(), Seq::empty())) {
                    lemma_territory_body_other(d, j, p, p <= j, MetadataModel { format: lists.0, international_format: lists.1, ..m });
                }
            },
            XmlEventView::End { .. } => {},
            XmlEventView::Eof => {},
            _ => lemma_territory_body_other(d, j, q + 1, before, m),
        }
    }
}

proof fn lemma_territory_other(d: DocumentView, j: nat, q: nat, before: bool, attributes: Seq<Result<XmlAttributeView, Seq<char>>>)
    requires
        j <= d.events.len(),
        before ==> q <= j,
        !before ==> j <= q,
    ensures
        spec_territory(with_other(d, j), place(q, before), attributes) == shifted(spec_territory(d, q, attributes), j),
{
    if let Ok(m) = spec_territory_attributes(attributes, crate::metadata::empty_metadata()) {
        lemma_territory_body_other(d, j, q, before, m);
    }
}

proof fn lemma_territories_other(d: DocumentView, j: nat, q: nat, before: bool, list: Seq<MetadataModel>)
    requires
        j <= d.events.len(),
        before ==> q <= j,
        !before ==> j <= q,
    ensures
        spec_territories(with_other(d, j), place(q, before), list) == shifted(spec_territories(d, q, list), j),
    decreases d.events.len() - q, if before { 1nat } else { 0nat },
{
    reveal(spec_territories);
    lemma_new_event(d, j);
    if before && q == j {
        lemma_territories_other(d, j, q, false, list);
    } else if q < d.events.len() {
        lemma_same_event(d, j, q, before);
        match d.events[q as int] {
            XmlEventView::Start { name: n, attributes } => if n == utf8_bytes("territory") {
                lemma_territory_other(d, j, q + 1, before, attributes);
                lemma_territory_advances(d, q + 1, attributes);
                if let Ok((m, p)) = spec_territory(d, q + 1, attributes) {
                    lemma_territories_other(d, j, p, p <= j, list.push(m));
                }
            } else {
                lemma_ignore_other(d, j, q + 1, before, seq![n]);
                lemma_ignore_advances(d, q + 1, seq![n]);
                if let Ok(p) = spec_ignore(d, q + 1, seq![n]) {
                    lemma_territories_other(d, j, p, p <= j, list);
                }
            },
            XmlEventView::End { .. } => {},
            XmlEventView::Eof => {},
            _ => lemma_territories_other(d, j, q + 1, before, list),
        }
    }
}

proof fn lemma_metadata_other(d: DocumentView, j: nat, q: nat, before: bool, list: Seq<MetadataModel>)
    requires
        j <= d.events.len(),
        before ==> q <= j,
        !before ==> j <= q,
    ensures
        spec_metadata_from(with_other(d, j), place(q, before), list) == spec_metadata_from(d, q, list),
    decreases d.events.len() - q, if before { 1nat } else { 0nat },
{
    reveal(spec_metadata_from);
    lemma_new_event(d, j);
    if before && q == j {
        lemma_metadata_other(d, j, q, false, list);
    } else if q < d.events.len() {
        lemma_same_event(d, j, q, before);
        match d.events[q as int] {
            XmlEventView::Start { name: n, .. } => if n == utf8_bytes("phoneNumberMetadata") {
                lemma_metadata_other(d, j, q + 1, before, list);
            } else if n == utf8_bytes("territories") {
                lemma_territories_other(d, j, q + 1, before, Seq::empty());
                lemma_territories_advances(d, q + 1, Seq::empty());
                if let Ok((found, p)) = spec_territories(d, q + 1, Seq::empty()) {
                    lemma_metadata_other(d, j, p, p <= j, list + found);
                }
            } else {
                lemma_ignore_other(d, j, q + 1, before, seq![n]);
                lemma_ignore_advances(d, q + 1, seq![n]);
                if let Ok(p) = spec_ignore(d, q + 1, seq![n]) {
                    lemma_metadata_other(d, j, p, p <= j, list);
                }
            },
            XmlEventView::End { name: n } => if n == utf8_bytes("phoneNumberMetadata") {
                lemma_metadata_other(d, j, q + 1, before, list);
            },
            XmlEventView::Eof => {},
            _ => lemma_metadata_other(d, j, q + 1, before, list),
        }
    }
}

/// Events that no reader looks at never change what is read: a document with
/// such an event put anywhere in it gives the same metadata, or the same
/// error, as the document without it.
pub proof fn law_skipped_events_change_nothing(d: DocumentView, j: nat)
    requires
        j <= d.events.len(),
    ensures
        spec_metadata(with_other(d, j)) == spec_metadata(d),
{
    lemma_metadata_other(d, j, 0, true, Seq::empty());
}

} // verus!
