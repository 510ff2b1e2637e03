//! What a metadata document means: the metadata that the reader returns for
//! a tokenized document, or the error it stops on, as spec functions over the
//! document's events. Each function reads events from a position on and
//! returns what it read with the position after it; past the last event a
//! reader meets the tokenizer's failure, or the end of the document.
use vstd::prelude::*;
use vstd::utf8::*;
use crate::error::ErrorModel;
use crate::metadata::{DefaultsModel, DescriptorModel, FormatModel, MetadataModel, empty_metadata};
use crate::text::{spec_parse_bool, spec_parse_u16, utf8_bytes};
use crate::xml::{DocumentView, XmlAttributeView, XmlEventView};

verus! {

/// What a reader meets past the last event while it is inside an element.
pub open spec fn end_of_input(d: DocumentView) -> ErrorModel {
    match d.failure {
        Some(message) => ErrorModel::Xml(message),
        None => ErrorModel::UnexpectedEof,
    }
}

/// The error for an end tag that closes an element other than the one read.
pub open spec fn mismatched(name: Seq<u8>) -> ErrorModel {
    if valid_utf8(name) {
        ErrorModel::MismatchedTag(decode_utf8(name))
    } else {
        ErrorModel::Utf8
    }
}

/// The error for a child element that `phase` does not take.
pub open spec fn unhandled_element(phase: Seq<char>, name: Seq<u8>) -> ErrorModel {
    if valid_utf8(name) {
        ErrorModel::UnhandledElement { phase, name: decode_utf8(name) }
    } else {
        ErrorModel::Utf8
    }
}

/// The error for an attribute that `phase` does not take.
pub open spec fn unhandled_attribute(phase: Seq<char>, key: Seq<u8>, value: Seq<u8>) -> ErrorModel {
    ErrorModel::UnhandledAttribute { phase, name: decode_utf8(key), value: decode_utf8(value) }
}

/// Reads the text of element `name` up to its end tag: the concatenated text
/// events (`acc` is what was read so far); other events are skipped.
#[verifier::opaque]
pub open spec fn spec_text(d: DocumentView, k: nat, name: Seq<u8>, acc: Seq<char>) -> Result<(Seq<char>, nat), ErrorModel>
    decreases d.events.len() - k,
{
    if k >= d.events.len() {
        Err(end_of_input(d))
    } else {
        match d.events[k as int] {
            XmlEventView::Text { content } => if valid_utf8(content) {
                spec_text(d, k + 1, name, acc + decode_utf8(content))
            } else {
                Err(ErrorModel::Utf8)
            },
            XmlEventView::End { name: n } => if n == name {
                Ok((acc, k + 1))
            } else {
                Err(mismatched(n))
            },
            XmlEventView::Eof => Err(ErrorModel::UnexpectedEof),
            _ => spec_text(d, k + 1, name, acc),
        }
    }
}

/// Skips elements: `open` holds the names of the elements entered and not yet
/// closed, innermost last; reading ends after the end tag of the outermost.
/// This is the same as skipping the element recursively, child by child.
#[verifier::opaque]
pub open spec fn spec_ignore(d: DocumentView, k: nat, open: Seq<Seq<u8>>) -> Result<nat, ErrorModel>
    decreases d.events.len() - k,
{
    if k >= d.events.len() {
        Err(end_of_input(d))
    } else {
        match d.events[k as int] {
            XmlEventView::Start { name: n, .. } => spec_ignore(d, k + 1, open.push(n)),
            XmlEventView::End { name: n } => if open.len() > 0 && n == open.last() {
                if open.len() == 1 {
                    Ok(k + 1)
                } else {
                    spec_ignore(d, k + 1, open.drop_last())
                }
            } else {
                Err(mismatched(n))
            },
            XmlEventView::Eof => Err(ErrorModel::UnexpectedEof),
            _ => spec_ignore(d, k + 1, open),
        }
    }
}

pub proof fn lemma_text_advances(d: DocumentView, k: nat, name: Seq<u8>, acc: Seq<char>)
    ensures
        spec_text(d, k, name, acc) matches Ok((_, p)) ==> k < p <= d.events.len(),
    decreases d.events.len() - k,
{
    reveal(spec_text);
    if k < d.events.len() {
        match d.events[k as int] {
            XmlEventView::Text { content } => if valid_utf8(content) {
                lemma_text_advances(d, k + 1, name, acc + decode_utf8(content));
            },
            XmlEventView::End { .. } => {},
            XmlEventView::Eof => {},
            _ => lemma_text_advances(d, k + 1, name, acc),
        }
    }
}

pub proof fn lemma_ignore_advances(d: DocumentView, k: nat, open: Seq<Seq<u8>>)
    ensures
        spec_ignore(d, k, open) matches Ok(p) ==> k < p <= d.events.len(),
    decreases d.events.len() - k,
{
    reveal(spec_ignore);
    if k < d.events.len() {
        match d.events[k as int] {
            XmlEventView::Start { name: n, .. } => lemma_ignore_advances(d, k + 1, open.push(n)),
            XmlEventView::End { name: n } => if open.len() > 1 && n == open.last() {
                lemma_ignore_advances(d, k + 1, open.drop_last());
            },
            XmlEventView::Eof => {},
            _ => lemma_ignore_advances(d, k + 1, open),
        }
    }
}

/// Records the text of a child of a descriptor.
pub open spec fn set_descriptor_text(desc: DescriptorModel, n: Seq<u8>, t: Seq<char>) -> DescriptorModel {
    if n == utf8_bytes("nationalNumberPattern") {
        DescriptorModel { national_number: Some(t), ..desc }
    } else {
        DescriptorModel { example: Some(t), ..desc }
    }
}

/// Reads descriptor `name`, starting from `desc`: its children
/// `nationalNumberPattern` and `exampleNumber` give the national number
/// pattern and the example; any other child element is an error.
#[verifier::opaque]
pub open spec fn spec_descriptor(d: DocumentView, k: nat, name: Seq<u8>, desc: DescriptorModel) -> Result<(DescriptorModel, nat), ErrorModel>
    decreases d.events.len() - k,
{
    if k >= d.events.len() {
        Err(end_of_input(d))
    } else {
        match d.events[k as int] {
            XmlEventView::Start { name: n, .. } => if n == utf8_bytes("nationalNumberPattern") || n == utf8_bytes("exampleNumber") {
                match spec_text(d, k + 1, n, Seq::empty()) {
                    Ok((t, p)) => {
                        proof {
                            lemma_text_advances(d, k + 1, n, Seq::empty());
                        }
                        spec_descriptor(d, p, name, set_descriptor_text(desc, n, t))
                    },
                    Err(e) => Err(e),
                }
            } else {
                Err(unhandled_element("descriptor"@, n))
            },
            XmlEventView::End { name: n } => if n == name {
                Ok((desc, k + 1))
            } else {
                Err(mismatched(n))
            },
            XmlEventView::Eof => Err(ErrorModel::UnexpectedEof),
            _ => spec_descriptor(d, k + 1, name, desc),
        }
    }
}

pub proof fn lemma_descriptor_advances(d: DocumentView, k: nat, name: Seq<u8>, desc: DescriptorModel)
    ensures
        spec_descriptor(d, k, name, desc) matches Ok((_, p)) ==> k < p <= d.events.len(),
    decreases d.events.len() - k,
{
    reveal(spec_descriptor);
    if k < d.events.len() {
        match d.events[k as int] {
            XmlEventView::Start { name: n, .. } => if n == utf8_bytes("nationalNumberPattern") || n == utf8_bytes("exampleNumber") {
                lemma_text_advances(d, k + 1, n, Seq::empty());
                if let Ok((t, p)) = spec_text(d, k + 1, n, Seq::empty()) {
                    lemma_descriptor_advances(d, p, name, set_descriptor_text(desc, n, t));
                }
            },
            XmlEventView::End { .. } => {},
            XmlEventView::Eof => {},
            _ => lemma_descriptor_advances(d, k + 1, name, desc),
        }
    }
}

/// Applies one attribute of a `numberFormat` element.
#[verifier::opaque]
pub open spec fn apply_format_attribute(f: FormatModel, key: Seq<u8>, value: Seq<u8>) -> Result<FormatModel, ErrorModel> {
    let v = decode_utf8(value);
    if !valid_utf8(key) || !valid_utf8(value) {
        Err(ErrorModel::Utf8)
    } else if key == utf8_bytes("pattern") {
        Ok(FormatModel { pattern: Some(v), ..f })
    } else if key == utf8_bytes("nationalPrefixFormattingRule") {
        Ok(FormatModel { national_prefix_formatting_rule: Some(v), ..f })
    } else if key == utf8_bytes("nationalPrefixOptionalWhenFormatting") {
        match spec_parse_bool(value) {
            Some(b) => Ok(FormatModel { national_prefix_optional_when_formatting: b, ..f }),
            None => Err(ErrorModel::ParseBool),
        }
    } else if key == utf8_bytes("carrierCodeFormattingRule") {
        Ok(FormatModel { domestic_carrier: Some(v), ..f })
    } else {
        Err(unhandled_attribute("format"@, key, value))
    }
}

/// Applies the attributes of a `numberFormat` element in order, stopping at
/// the first one that fails.
#[verifier::opaque]
pub open spec fn spec_format_attributes(attributes: Seq<Result<XmlAttributeView, Seq<char>>>, f: FormatModel) -> Result<FormatModel, ErrorModel>
    decreases attributes.len(),
{
    if attributes.len() == 0 {
        Ok(f)
    } else {
        match attributes[0] {
            Err(message) => Err(ErrorModel::Xml(message)),
            Ok(a) => match apply_format_attribute(f, a.key, a.value) {
                Ok(next) => spec_format_attributes(attributes.drop_first(), next),
                Err(e) => Err(e),
            },
        }
    }
}

/// Records the text of a child of a `numberFormat` element: the format, and
/// the international format so far.
pub open spec fn format_child(f: FormatModel, international: Option<Seq<char>>, n: Seq<u8>, t: Seq<char>) -> (FormatModel, Option<Seq<char>>) {
    if n == utf8_bytes("leadingDigits") {
        (FormatModel { leading_digits: f.leading_digits.push(t), ..f }, international)
    } else if n == utf8_bytes("format") {
        (FormatModel { format: Some(t), ..f }, Some(t))
    } else if t == "NA"@ {
        (f, None)
    } else {
        (f, Some(t))
    }
}

/// The international format that goes with national format `f`: `f` with
/// the international pattern in place of its own, if there is one.
pub open spec fn international_of(f: FormatModel, international: Option<Seq<char>>) -> Option<FormatModel> {
    match international {
        Some(v) => Some(FormatModel { format: Some(v), ..f }),
        None => None,
    }
}

/// Reads the children of `numberFormat` element `name`: `leadingDigits` adds
/// leading digits, `format` sets the format and the international format,
/// `intlFormat` sets the international format (`NA` for none).
#[verifier::opaque]
pub open spec fn spec_format_body(d: DocumentView, k: nat, name: Seq<u8>, f: FormatModel, international: Option<Seq<char>>) -> Result<((FormatModel, Option<FormatModel>), nat), ErrorModel>
    decreases d.events.len() - k,
{
    if k >= d.events.len() {
        Err(end_of_input(d))
    } else {
        match d.events[k as int] {
            XmlEventView::Start { name: n, .. } => if n == utf8_bytes("leadingDigits") || n == utf8_bytes("format") || n == utf8_bytes("intlFormat") {
                match spec_text(d, k + 1, n, Seq::empty()) {
                    Ok((t, p)) => {
                        proof {
                            lemma_text_advances(d, k + 1, n, Seq::empty());
                        }
                        let (f2, i2) = format_child(f, international, n, t);
                        spec_format_body(d, p, name, f2, i2)
                    },
                    Err(e) => Err(e),
                }
            } else {
                Err(unhandled_element("format"@, n))
            },
            XmlEventView::End { name: n } => if n == name {
                Ok(((f, international_of(f, international)), k + 1))
            } else {
                Err(mismatched(n))
            },
            XmlEventView::Eof => Err(ErrorModel::UnexpectedEof),
            _ => spec_format_body(d, k + 1, name, f, international),
        }
    }
}

/// Reads `numberFormat` element `name` with the given attributes, starting
/// from `defaults`: its national format and its international format, if any.
pub open spec fn spec_format(d: DocumentView, k: nat, name: Seq<u8>, attributes: Seq<Result<XmlAttributeView, Seq<char>>>, defaults: FormatModel) -> Result<((FormatModel, Option<FormatModel>), nat), ErrorModel> {
    match spec_format_attributes(attributes, defaults) {
        Ok(f) => spec_format_body(d, k, name, f, None),
        Err(e) => Err(e),
    }
}

pub proof fn lemma_format_body_advances(d: DocumentView, k: nat, name: Seq<u8>, f: FormatModel, international: Option<Seq<char>>)
    ensures
        spec_format_body(d, k, name, f, international) matches Ok((_, p)) ==> k < p <= d.events.len(),
    decreases d.events.len() - k,
{
    reveal(spec_format_body);
    if k < d.events.len() {
        match d.events[k as int] {
            XmlEventView::Start { name: n, .. } => if n == utf8_bytes("leadingDigits") || n == utf8_bytes("format") || n == utf8_bytes("intlFormat") {
                lemma_text_advances(d, k + 1, n, Seq::empty());
                if let Ok((t, p)) = spec_text(d, k + 1, n, Seq::empty()) {
                    let (f2, i2) = format_child(f, international, n, t);
                    lemma_format_body_advances(d, p, name, f2, i2);
                }
            },
            XmlEventView::End { .. } => {},
            XmlEventView::Eof => {},
            _ => lemma_format_body_advances(d, k + 1, name, f, international),
        }
    }
}

pub proof fn lemma_format_advances(d: DocumentView, k: nat, name: Seq<u8>, attributes: Seq<Result<XmlAttributeView, Seq<char>>>, defaults: FormatModel)
    ensures
        spec_format(d, k, name, attributes, defaults) matches Ok((_, p)) ==> k <= p <= d.events.len(),
        spec_format(d, k, name, attributes, defaults) matches Ok((_, p)) ==> k < p,
{
    if let Ok(f) = spec_format_attributes(attributes, defaults) {
        lemma_format_body_advances(d, k, name, f, None);
    }
}

/// Adds what one `numberFormat` element gave to the lists read so far.
pub open spec fn add_format(lists: (Seq<FormatModel>, Seq<FormatModel>), read: (FormatModel, Option<FormatModel>)) -> (Seq<FormatModel>, Seq<FormatModel>) {
    (
        lists.0.push(read.0),
        match read.1 {
            Some(i) => lists.1.push(i),
            None => lists.1,
        },
    )
}

/// Reads `availableFormats` element `name`: each `numberFormat` child adds
/// its national format to the first list and its international format, if
/// any, to the second; any other child element is an error.
#[verifier::opaque]
pub open spec fn spec_formats(d: DocumentView, k: nat, name: Seq<u8>, defaults: FormatModel, lists: (Seq<FormatModel>, Seq<FormatModel>)) -> Result<((Seq<FormatModel>, Seq<FormatModel>), nat), ErrorModel>
    decreases d.events.len() - k,
{
    if k >= d.events.len() {
        Err(end_of_input(d))
    } else {
        match d.events[k as int] {
            XmlEventView::Start { name: n, attributes } => if n == utf8_bytes("numberFormat") {
                match spec_format(d, k + 1, n, attributes, defaults) {
                    Ok((read, p)) => {
                        proof {
                            lemma_format_advances(d, k + 1, n, attributes, defaults);
                        }
                        spec_formats(d, p, name, defaults, add_format(lists, read))
                    },
                    Err(e) => Err(e),
                }
            } else {
                Err(unhandled_element("formats"@, n))
            },
            XmlEventView::End { name: n } => if n == name {
                Ok((lists, k + 1))
            } else {
                Err(mismatched(n))
            },
            XmlEventView::Eof => Err(ErrorModel::UnexpectedEof),
            _ => spec_formats(d, k + 1, name, defaults, lists),
        }
    }
}

pub proof fn lemma_formats_advances(d: DocumentView, k: nat, name: Seq<u8>, defaults: FormatModel, lists: (Seq<FormatModel>, Seq<FormatModel>))
    ensures
        spec_formats(d, k, name, defaults, lists) matches Ok((_, p)) ==> k < p <= d.events.len(),
    decreases d.events.len() - k,
{
    reveal(spec_formats);
    if k < d.events.len() {
        match d.events[k as int] {
            XmlEventView::Start { name: n, attributes } => if n == utf8_bytes("numberFormat") {
                lemma_format_advances(d, k + 1, n, attributes, defaults);
                if let Ok((read, p)) = spec_format(d, k + 1, n, attributes, defaults) {
                    lemma_formats_advances(d, p, name, defaults, add_format(lists, read));
                }
            },
            XmlEventView::End { .. } => {},
            XmlEventView::Eof => {},
            _ => lemma_formats_advances(d, k + 1, name, defaults, lists),
        }
    }
}

/// Applies one attribute of a `territory` element.
#[verifier::opaque]
pub open spec fn apply_territory_attribute(m: MetadataModel, key: Seq<u8>, value: Seq<u8>) -> Result<MetadataModel, ErrorModel> {
    let v = decode_utf8(value);
    let f = m.defaults.format;
    if !valid_utf8(key) || !valid_utf8(value) {
        Err(ErrorModel::Utf8)
    } else if key == utf8_bytes("id") {
        Ok(MetadataModel { id: Some(v), ..m })
    } else if key == utf8_bytes("countryCode") {
        match spec_parse_u16(value) {
            Some(c) => Ok(MetadataModel { country_code: Some(c), ..m }),
            None => Err(ErrorModel::ParseInt),
        }
    } else if key == utf8_bytes("internationalPrefix") {
        Ok(MetadataModel { international_prefix: Some(v), ..m })
    } else if key == utf8_bytes("preferredInternationalPrefix") {
        Ok(MetadataModel { preferred_international_prefix: Some(v), ..m })
    } else if key == utf8_bytes("nationalPrefix") {
        Ok(MetadataModel { national_prefix: Some(v), ..m })
    } else if key == utf8_bytes("preferredExtnPrefix") {
        Ok(MetadataModel { preferred_extension_prefix: Some(v), ..m })
    } else if key == utf8_bytes("nationalPrefixForParsing") {
        Ok(MetadataModel { national_prefix_for_parsing: Some(v), ..m })
    } else if key == utf8_bytes("nationalPrefixTransformRule") {
        Ok(MetadataModel { national_prefix_transform_rule: Some(v), ..m })
    } else if key == utf8_bytes("mainCountryForCode") {
        match spec_parse_bool(value) {
            Some(b) => Ok(MetadataModel { main_country_for_code: b, ..m }),
            None => Err(ErrorModel::ParseBool),
        }
    } else if key == utf8_bytes("leadingDigits") {
        Ok(MetadataModel { leading_digits: Some(v), ..m })
    } else if key == utf8_bytes("mobileNumberPortableRegion") {
        match spec_parse_bool(value) {
            Some(b) => Ok(MetadataModel { mobile_number_portable: b, ..m }),
            None => Err(ErrorModel::ParseBool),
        }
    } else if key == utf8_bytes("nationalPrefixFormattingRule") {
        Ok(MetadataModel { defaults: DefaultsModel { format: FormatModel { national_prefix_formatting_rule: Some(v), ..f }, ..m.defaults }, ..m })
    } else if key == utf8_bytes("nationalPrefixOptionalWhenFormatting") {
        match spec_parse_bool(value) {
            Some(b) => Ok(MetadataModel { defaults: DefaultsModel { format: FormatModel { national_prefix_optional_when_formatting: b, ..f }, ..m.defaults }, ..m }),
            None => Err(ErrorModel::ParseBool),
        }
    } else if key == utf8_bytes("carrierCodeFormattingRule") {
        Ok(MetadataModel { defaults: DefaultsModel { format: FormatModel { domestic_carrier: Some(v), ..f }, ..m.defaults }, ..m })
    } else {
        Err(unhandled_attribute("format"@, key, value))
    }
}

/// Applies the attributes of a `territory` element in order, stopping at the
/// first one that fails.
#[verifier::opaque]
pub open spec fn spec_territory_attributes(attributes: Seq<Result<XmlAttributeView, Seq<char>>>, m: MetadataModel) -> Result<MetadataModel, ErrorModel>
    decreases attributes.len(),
{
    if attributes.len() == 0 {
        Ok(m)
    } else {
        match attributes[0] {
            Err(message) => Err(ErrorModel::Xml(message)),
            Ok(a) => match apply_territory_attribute(m, a.key, a.value) {
                Ok(next) => spec_territory_attributes(attributes.drop_first(), next),
                Err(e) => Err(e),
            },
        }
    }
}

/// The child elements of a territory that are descriptors.
#[verifier::opaque]
pub open spec fn descriptor_slot(n: Seq<u8>) -> bool {
    ||| n == utf8_bytes("generalDesc")
    ||| n == utf8_bytes("fixedLine")
    ||| n == utf8_bytes("mobile")
    ||| n == utf8_bytes("tollFree")
    ||| n == utf8_bytes("premiumRate")
    ||| n == utf8_bytes("sharedCost")
    ||| n == utf8_bytes("personalNumber")
    ||| n == utf8_bytes("voip")
    ||| n == utf8_bytes("pager")
    ||| n == utf8_bytes("uan")
    ||| n == utf8_bytes("emergency")
    ||| n == utf8_bytes("voicemail")
    ||| n == utf8_bytes("noInternationalDialling")
}

/// Records descriptor element `n` of a territory in its field.
#[verifier::opaque]
pub open spec fn set_descriptor(m: MetadataModel, n: Seq<u8>, desc: DescriptorModel) -> MetadataModel {
    let d = Some(desc);
    if n == utf8_bytes("generalDesc") {
        MetadataModel { general: d, ..m }
    } else if n == utf8_bytes("fixedLine") {
        MetadataModel { fixed_line: d, ..m }
    } else if n == utf8_bytes("mobile") {
        MetadataModel { mobile: d, ..m }
    } else if n == utf8_bytes("tollFree") {
        MetadataModel { toll_free: d, ..m }
    } else if n == utf8_bytes("premiumRate") {
        MetadataModel { premium_rate: d, ..m }
    } else if n == utf8_bytes("sharedCost") {
        MetadataModel { shared_cost: d, ..m }
    } else if n == utf8_bytes("personalNumber") {
        MetadataModel { personal: d, ..m }
    } else if n == utf8_bytes("voip") {
        MetadataModel { voip: d, ..m }
    } else if n == utf8_bytes("pager") {
        MetadataModel { pager: d, ..m }
    } else if n == utf8_bytes("uan") {
        MetadataModel { uan: d, ..m }
    } else if n == utf8_bytes("emergency") {
        MetadataModel { emergency: d, ..m }
    } else if n == utf8_bytes("voicemail") {
        MetadataModel { voicemail: d, ..m }
    } else {
        MetadataModel { no_international: d, ..m }
    }
}

/// The child elements of a territory that are skipped.
pub open spec fn skipped_in_territory(n: Seq<u8>) -> bool {
    n == utf8_bytes("references") || n == utf8_bytes("areaCodeOptional")
}

/// Reads the children of a `territory` element into `m`: `references` and
/// `areaCodeOptional` are skipped, the descriptors fill their fields (each
/// starting from the territory's default descriptor), `availableFormats`
/// gives the national and international formats (each starting from the
/// territory's default format); any other child element is an error.
#[verifier::opaque]
pub open spec fn spec_territory_body(d: DocumentView, k: nat, m: MetadataModel) -> Result<(MetadataModel, nat), ErrorModel>
    decreases d.events.len() - k,
{
    if k >= d.events.len() {
        Err(end_of_input(d))
    } else {
        match d.events[k as int] {
            XmlEventView::Start { name: n, .. } => if skipped_in_territory(n) {
                match spec_ignore(d, k + 1, seq![n]) {
                    Ok(p) => {
                        proof {
                            lemma_ignore_advances(d, k + 1, seq![n]);
                        }
                        spec_territory_body(d, p, m)
                    },
                    Err(e) => Err(e),
                }
            } else if descriptor_slot(n) {
                match spec_descriptor(d, k + 1, n, m.defaults.descriptor) {
                    Ok((desc, p)) => {
                        proof {
                            lemma_descriptor_advances(d, k + 1, n, m.defaults.descriptor);
                        }
                        spec_territory_body(d, p, set_descriptor(m, n, desc))
                    },
                    Err(e) => Err(e),
                }
            } else if n == utf8_bytes("availableFormats") {
                match spec_formats(d, k + 1, n, m.defaults.format, (Seq::empty(), Seq::empty())) {
                    Ok((lists, p)) => {
                        proof {
                            lemma_formats_advances(d, k + 1, n, m.defaults.format, (Seq::empty(), Seq::empty()));
                        }
                        spec_territory_body(d, p, MetadataModel { format: lists.0, international_format: lists.1, ..m })
                    },
                    Err(e) => Err(e),
                }
            } else {
                Err(unhandled_element("territory"@, n))
            },
            XmlEventView::End { name: n } => if n == utf8_bytes("territory") {
                Ok((m, k + 1))
            } else {
                Err(mismatched(n))
            },
            XmlEventView::Eof => Err(ErrorModel::UnexpectedEof),
            _ => spec_territory_body(d, k + 1, m),
        }
    }
}

/// Reads a `territory` element with the given attributes: its metadata.
pub open spec fn spec_territory(d: DocumentView, k: nat, attributes: Seq<Result<XmlAttributeView, Seq<char>>>) -> Result<(MetadataModel, nat), ErrorModel> {
    match spec_territory_attributes(attributes, empty_metadata()) {
        Ok(m) => spec_territory_body(d, k, m),
        Err(e) => Err(e),
    }
}

pub proof fn lemma_territory_body_advances(d: DocumentView, k: nat, m: MetadataModel)
    ensures
        spec_territory_body(d, k, m) matches Ok((_, p)) ==> k < p <= d.events.len(),
    decreases d.events.len() - k,
{
    reveal(spec_territory_body);
    if k < d.events.len() {
        match d.events[k as int] {
            XmlEventView::Start { name: n, .. } => if skipped_in_territory(n) {
                lemma_ignore_advances(d, k + 1, seq![n]);
                if let Ok(p) = spec_ignore(d, k + 1, seq![n]) {
                    lemma_territory_body_advances(d, p, m);
                }
            } else if descriptor_slot(n) {
                lemma_descriptor_advances(d, k + 1, n, m.defaults.descriptor);
                if let Ok((desc, p)) = spec_descriptor(d, k + 1, n, m.defaults.descriptor) {
                    lemma_territory_body_advances(d, p, set_descriptor(m, n, desc));
                }
            } else if n == utf8_bytes("availableFormats") {
                lemma_formats_advances(d, k + 1, n, m.defaults.format, (Seq::empty(), Seq::empty()));
                if let Ok((lists, p)) = spec_formats(d, k + 1, n, m.defaults.format, (Seq::empty(), Seq::empty())) {
                    lemma_territory_body_advances(d, p, MetadataModel { format: lists.0, international_format: lists.1, ..m });
                }
            },
            XmlEventView::End { .. } => {},
            XmlEventView::Eof => {},
            _ => lemma_territory_body_advances(d, k + 1, m),
        }
    }
}

pub proof fn lemma_territory_advances(d: DocumentView, k: nat, attributes: Seq<Result<XmlAttributeView, Seq<char>>>)
    ensures
        spec_territory(d, k, attributes) matches Ok((_, p)) ==> k < p <= d.events.len(),
{
    if let Ok(m) = spec_territory_attributes(attributes, empty_metadata()) {
        lemma_territory_body_advances(d, k, m);
    }
}

/// Reads a `territories` element: one metadata per `territory` child, in
/// document order; other child elements are skipped.
#[verifier::opaque]
pub open spec fn spec_territories(d: DocumentView, k: nat, list: Seq<MetadataModel>) -> Result<(Seq<MetadataModel>, nat), ErrorModel>
    decreases d.events.len() - k,
{
    if k >= d.events.len() {
        Err(end_of_input(d))
    } else {
        match d.events[k as int] {
            XmlEventView::Start { name: n, attributes } => if n == utf8_bytes("territory") {
                match spec_territory(d, k + 1, attributes) {
                    Ok((m, p)) => {
                        proof {
                            lemma_territory_advances(d, k + 1, attributes);
                        }
                        spec_territories(d, p, list.push(m))
                    },
                    Err(e) => Err(e),
                }
            } else {
                match spec_ignore(d, k + 1, seq![n]) {
                    Ok(p) => {
                        proof {
                            lemma_ignore_advances(d, k + 1, seq![n]);
                        }
                        spec_territories(d, p, list)
                    },
                    Err(e) => Err(e),
                }
            },
            XmlEventView::End { name: n } => if n == utf8_bytes("territories") {
                Ok((list, k + 1))
            } else {
                Err(mismatched(n))
            },
            XmlEventView::Eof => Err(ErrorModel::UnexpectedEof),
            _ => spec_territories(d, k + 1, list),
        }
    }
}

pub proof fn lemma_territories_advances(d: DocumentView, k: nat, list: Seq<MetadataModel>)
    ensures
        spec_territories(d, k, list) matches Ok((_, p)) ==> k < p <= d.events.len(),
    decreases d.events.len() - k,
{
    reveal(spec_territories);
    if k < d.events.len() {
        match d.events[k as int] {
            XmlEventView::Start { name: n, attributes } => if n == utf8_bytes("territory") {
                lemma_territory_advances(d, k + 1, attributes);
                if let Ok((m, p)) = spec_territory(d, k + 1, attributes) {
                    lemma_territories_advances(d, p, list.push(m));
                }
            } else {
                lemma_ignore_advances(d, k + 1, seq![n]);
                if let Ok(p) = spec_ignore(d, k + 1, seq![n]) {
                    lemma_territories_advances(d, p, list);
                }
            },
            XmlEventView::End { .. } => {},
            XmlEventView::Eof => {},
            _ => lemma_territories_advances(d, k + 1, list),
        }
    }
}

/// Reads a metadata document from position `k` to its end: every
/// `territories` element adds its territories to `list`; `phoneNumberMetadata`
/// start tags are passed over and any other element is skipped; an end tag
/// other than `phoneNumberMetadata` is an error. The end of the document ends
/// reading, with success unless the tokenizer failed.
#[verifier::opaque]
pub open spec fn spec_metadata_from(d: DocumentView, k: nat, list: Seq<MetadataModel>) -> Result<Seq<MetadataModel>, ErrorModel>
    decreases d.events.len() - k,
{
    if k >= d.events.len() {
        match d.failure {
            Some(message) => Err(ErrorModel::Xml(message)),
            None => Ok(list),
        }
    } else {
        match d.events[k as int] {
            XmlEventView::Eof => Ok(list),
            XmlEventView::Start { name: n, .. } => if n == utf8_bytes("phoneNumberMetadata") {
                spec_metadata_from(d, k + 1, list)
            } else if n == utf8_bytes("territories") {
                match spec_territories(d, k + 1, Seq::empty()) {
                    Ok((found, p)) => {
                        proof {
                            lemma_territories_advances(d, k + 1, Seq::empty());
                        }
                        spec_metadata_from(d, p, list + found)
                    },
                    Err(e) => Err(e),
                }
            } else {
                match spec_ignore(d, k + 1, seq![n]) {
                    Ok(p) => {
                        proof {
                            lemma_ignore_advances(d, k + 1, seq![n]);
                        }
                        spec_metadata_from(d, p, list)
                    },
                    Err(e) => Err(e),
                }
            },
            XmlEventView::End { name: n } => if n != utf8_bytes("phoneNumberMetadata") {
                Err(mismatched(n))
            } else {
                spec_metadata_from(d, k + 1, list)
            },
            _ => spec_metadata_from(d, k + 1, list),
        }
    }
}

/// The document that tokenizing gives: the scanned events, and, when the
/// tokenizer failed, its message.
pub open spec fn scanned(scan: (Seq<XmlEventView>, Option<Seq<char>>)) -> DocumentView {
    DocumentView { events: scan.0, failure: scan.1 }
}

/// The metadata of every territory of a tokenized metadata document, in
/// document order, or the error that reading it stops on.
pub open spec fn spec_metadata(d: DocumentView) -> Result<Seq<MetadataModel>, ErrorModel> {
    spec_metadata_from(d, 0, Seq::empty())
}

} // verus!
