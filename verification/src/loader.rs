//! The metadata reader: reads the events of a tokenized metadata document and
//! builds the metadata of each territory, as `crate::schema` states.
use vstd::prelude::*;
use vstd::string::*;
use vstd::utf8::*;
use crate::error::{ErrorModel, LoadError};
use crate::metadata::{
    Descriptor, Format, FormatModel, Metadata, MetadataModel, format_option_view, formats_view,
    texts_view, metadata_list_view, outcome,
};
use crate::schema::{
    apply_format_attribute, end_of_input, lemma_ignore_advances,
    lemma_text_advances, mismatched, spec_descriptor, spec_format, spec_format_attributes,
    spec_format_body, spec_ignore, spec_text, unhandled_attribute, unhandled_element,
    format_child, international_of, lemma_format_advances, spec_formats, add_format,
    apply_territory_attribute, spec_territory_attributes, descriptor_slot, set_descriptor,
    spec_territory, spec_territory_body, lemma_descriptor_advances, lemma_formats_advances,
    lemma_territory_advances, spec_territories, lemma_territories_advances, spec_metadata,
    spec_metadata_from, scanned,
};
use crate::text::{decode, parse_bool, parse_u16, same_bytes};
use crate::xml::{XmlAttribute, XmlDocument, XmlEvent, XmlEventView, attributes_view, scan, xml_scan};

verus! {

/// The error of a reader that runs past the last event inside an element.
fn end_error(d: &XmlDocument) -> (e: LoadError)
    ensures
        e@ == end_of_input(d@),
{
    match &d.failure {
        Some(message) => LoadError::Xml(message.clone()),
        None => LoadError::UnexpectedEof,
    }
}

/// The error for an end tag that closes an element other than the one read.
fn mismatched_tag(name: &[u8]) -> (e: LoadError)
    ensures
        e@ == mismatched(name@),
{
    match decode(name) {
        Some(s) => LoadError::MismatchedTag(s),
        None => LoadError::Utf8,
    }
}

/// Reads the text of element `name`, whose start tag precedes position `k`.
fn text(d: &XmlDocument, k: usize, name: &[u8]) -> (res: Result<(String, usize), LoadError>)
    requires
        k <= d.events@.len(),
    ensures
        match res {
            Ok((t, p)) => spec_text(d@, k as nat, name@, Seq::empty()) == Ok::<_, ErrorModel>((t@, p as nat)),
            Err(e) => spec_text(d@, k as nat, name@, Seq::empty()) == Err::<(Seq<char>, nat), _>(e@),
        },
{
    proof {
        reveal(spec_text);
    }
    let mut result = String::new();
    let mut i = k;
    loop
        invariant
            k <= i <= d.events@.len(),
            spec_text(d@, i as nat, name@, result@) == spec_text(d@, k as nat, name@, Seq::empty()),
        decreases d.events@.len() - i,
    {
        proof {
            reveal(spec_text);
        }
        if i >= d.events.len() {
            return Err(end_error(d));
        }
        match &d.events[i] {
            XmlEvent::Text { content } => match decode(content.as_slice()) {
                Some(s) => {
                    result.append(s.as_str());
                },
                None => {
                    return Err(LoadError::Utf8);
                },
            },
            XmlEvent::End { name: n } => {
                if same_bytes(n.as_slice(), name) {
                    return Ok((result, i + 1));
                } else {
                    return Err(mismatched_tag(n.as_slice()));
                }
            },
            XmlEvent::Eof => {
                return Err(LoadError::UnexpectedEof);
            },
            _ => {},
        }
        i = i + 1;
    }
}

/// The error for a child element that `phase` does not take.
fn unhandled_child(phase: &str, name: &[u8]) -> (e: LoadError)
    ensures
        e@ == unhandled_element(phase@, name@),
{
    match decode(name) {
        Some(s) => LoadError::UnhandledElement { phase: phase.to_owned(), name: s },
        None => LoadError::Utf8,
    }
}

/// The error for an attribute that `phase` does not take.
fn unhandled_attr(phase: &str, key: &[u8], value: &[u8]) -> (e: LoadError)
    requires
        valid_utf8(key@),
        valid_utf8(value@),
    ensures
        e@ == unhandled_attribute(phase@, key@, value@),
{
    match (decode(key), decode(value)) {
        (Some(name), Some(value)) => LoadError::UnhandledAttribute { phase: phase.to_owned(), name, value },
        _ => LoadError::Utf8,
    }
}

pub open spec fn slices_view(open: Seq<&[u8]>) -> Seq<Seq<u8>> {
    open.map_values(|s: &[u8]| s@)
}

/// Skips the element `name`, whose start tag precedes position `k`, with all
/// that it holds.
fn ignore(d: &XmlDocument, k: usize, name: &[u8]) -> (res: Result<usize, LoadError>)
    requires
        k <= d.events@.len(),
    ensures
        match res {
            Ok(p) => spec_ignore(d@, k as nat, seq![name@]) == Ok::<_, ErrorModel>(p as nat),
            Err(e) => spec_ignore(d@, k as nat, seq![name@]) == Err::<nat, _>(e@),
        },
{
    proof {
        reveal(spec_ignore);
    }
    let mut open: Vec<&[u8]> = Vec::new();
    open.push(name);
    assert(slices_view(open@) =~= seq![name@]);
    let mut i = k;
    loop
        invariant
            k <= i <= d.events@.len(),
            open@.len() > 0,
            spec_ignore(d@, i as nat, slices_view(open@)) == spec_ignore(d@, k as nat, seq![name@]),
        decreases d.events@.len() - i,
    {
        proof {
            reveal(spec_ignore);
        }
        if i >= d.events.len() {
            return Err(end_error(d));
        }
        let ghost before = open@;
        match &d.events[i] {
            XmlEvent::Start { name: n, .. } => {
                open.push(n.as_slice());
                assert(slices_view(open@) =~= slices_view(before).push(n@));
            },
            XmlEvent::End { name: n } => {
                let last = open.len() - 1;
                if same_bytes(n.as_slice(), open[last]) {
                    if open.len() == 1 {
                        return Ok(i + 1);
                    }
                    open.pop();
                    assert(slices_view(open@) =~= slices_view(before).drop_last());
                } else {
                    return Err(mismatched_tag(n.as_slice()));
                }
            },
            XmlEvent::Eof => {
                return Err(LoadError::UnexpectedEof);
            },
            _ => {},
        }
        i = i + 1;
    }
}

/// Reads descriptor `name`, whose start tag precedes position `k`, starting
/// from `defaults`.
fn descriptor(d: &XmlDocument, k: usize, name: &[u8], defaults: &Descriptor) -> (res: Result<(Descriptor, usize), LoadError>)
    requires
        k <= d.events@.len(),
    ensures
        match res {
            Ok((desc, p)) => spec_descriptor(d@, k as nat, name@, defaults@) == Ok::<_, ErrorModel>((desc@, p as nat)),
            Err(e) => spec_descriptor(d@, k as nat, name@, defaults@) == Err::<(crate::metadata::DescriptorModel, nat), _>(e@),
        },
{
    proof {
        reveal(spec_descriptor);
    }
    let mut desc = defaults.clone();
    let mut i = k;
    loop
        invariant
            k <= i <= d.events@.len(),
            spec_descriptor(d@, i as nat, name@, desc@) == spec_descriptor(d@, k as nat, name@, defaults@),
        decreases d.events@.len() - i,
    {
        proof {
            reveal(spec_descriptor);
        }
        if i >= d.events.len() {
            return Err(end_error(d));
        }
        match &d.events[i] {
            XmlEvent::Start { name: n, .. } => {
                let is_pattern = same_bytes(n.as_slice(), "nationalNumberPattern".as_bytes());
                if is_pattern || same_bytes(n.as_slice(), "exampleNumber".as_bytes()) {
                    match text(d, i + 1, n.as_slice()) {
                        Ok((t, p)) => {
                            proof {
                                lemma_text_advances(d@, (i + 1) as nat, n@, Seq::empty());
                            }
                            if is_pattern {
                                desc.national_number = Some(t);
                            } else {
                                desc.example = Some(t);
                            }
                            i = p;
                        },
                        Err(e) => {
                            return Err(e);
                        },
                    }
                } else {
                    return Err(unhandled_child("descriptor", n.as_slice()));
                }
            },
            XmlEvent::End { name: n } => {
                if same_bytes(n.as_slice(), name) {
                    return Ok((desc, i + 1));
                } else {
                    return Err(mismatched_tag(n.as_slice()));
                }
            },
            XmlEvent::Eof => {
                return Err(LoadError::UnexpectedEof);
            },
            _ => {
                i = i + 1;
            },
        }
    }
}

/// Applies one attribute of a `numberFormat` element to `f`.
fn apply_format_attr(f: &mut Format, key: &[u8], value: &[u8]) -> (res: Result<(), LoadError>)
    ensures
        match res {
            Ok(()) => apply_format_attribute(old(f)@, key@, value@) == Ok::<_, ErrorModel>(final(f)@),
            Err(e) => apply_format_attribute(old(f)@, key@, value@) == Err::<FormatModel, _>(e@),
        },
{
    proof {
        reveal(apply_format_attribute);
    }
    let v = match decode(value) {
        Some(v) => v,
        None => {
            return Err(LoadError::Utf8);
        },
    };
    if decode(key).is_none() {
        return Err(LoadError::Utf8);
    }
    if same_bytes(key, "pattern".as_bytes()) {
        f.pattern = Some(v);
    } else if same_bytes(key, "nationalPrefixFormattingRule".as_bytes()) {
        f.national_prefix_formatting_rule = Some(v);
    } else if same_bytes(key, "nationalPrefixOptionalWhenFormatting".as_bytes()) {
        match parse_bool(value) {
            Some(b) => {
                f.national_prefix_optional_when_formatting = b;
            },
            None => {
                return Err(LoadError::ParseBool);
            },
        }
    } else if same_bytes(key, "carrierCodeFormattingRule".as_bytes()) {
        f.domestic_carrier = Some(v);
    } else {
        return Err(unhandled_attr("format", key, value));
    }
    Ok(())
}

/// Applies the attributes of a `numberFormat` element in order to `defaults`.
fn format_attributes(attributes: &Vec<Result<XmlAttribute, String>>, defaults: &Format) -> (res: Result<Format, LoadError>)
    ensures
        match res {
            Ok(f) => spec_format_attributes(attributes_view(attributes@), defaults@) == Ok::<_, ErrorModel>(f@),
            Err(e) => spec_format_attributes(attributes_view(attributes@), defaults@) == Err::<FormatModel, _>(e@),
        },
{
    proof {
        reveal(spec_format_attributes);
    }
    let ghost all = attributes_view(attributes@);
    let mut f = defaults.clone();
    let mut i: usize = 0;
    assert(all.skip(0) =~= all);
    while i < attributes.len()
        invariant
            i <= attributes@.len(),
            all == attributes_view(attributes@),
            spec_format_attributes(all.skip(i as int), f@) == spec_format_attributes(all, defaults@),
        decreases attributes@.len() - i,
    {
        proof {
            reveal(spec_format_attributes);
        }
        assert(all.skip(i as int)[0] == all[i as int]);
        assert(all.skip(i as int).drop_first() =~= all.skip(i + 1));
        match &attributes[i] {
            Err(message) => {
                return Err(LoadError::Xml(message.clone()));
            },
            Ok(a) => match apply_format_attr(&mut f, a.key.as_slice(), a.value.as_slice()) {
                Ok(()) => {},
                Err(e) => {
                    return Err(e);
                },
            },
        }
        i = i + 1;
    }
    assert(all.skip(i as int).len() == 0);
    Ok(f)
}

/// Reads `numberFormat` element `name`, whose start tag (with `attributes`)
/// precedes position `k`, starting from `defaults`.
fn format(
    d: &XmlDocument,
    k: usize,
    name: &[u8],
    attributes: &Vec<Result<XmlAttribute, String>>,
    defaults: &Format,
) -> (res: Result<((Format, Option<Format>), usize), LoadError>)
    requires
        k <= d.events@.len(),
    ensures
        match res {
            Ok(((f, international), p)) => spec_format(d@, k as nat, name@, attributes_view(attributes@), defaults@)
                == Ok::<_, ErrorModel>(((f@, format_option_view(international)), p as nat)),
            Err(e) => spec_format(d@, k as nat, name@, attributes_view(attributes@), defaults@)
                == Err::<((FormatModel, Option<FormatModel>), nat), _>(e@),
        },
{
    proof {
        reveal(spec_format_body);
    }
    let mut f = match format_attributes(attributes, defaults) {
        Ok(f) => f,
        Err(e) => {
            return Err(e);
        },
    };
    let mut international: Option<String> = None;
    let mut i = k;
    loop
        invariant
            k <= i <= d.events@.len(),
            spec_format_body(d@, i as nat, name@, f@, crate::metadata::text_view(international))
                == spec_format(d@, k as nat, name@, attributes_view(attributes@), defaults@),
        decreases d.events@.len() - i,
    {
        proof {
            reveal(spec_format_body);
        }
        if i >= d.events.len() {
            return Err(end_error(d));
        }
        match &d.events[i] {
            XmlEvent::Start { name: n, .. } => {
                let is_leading = same_bytes(n.as_slice(), "leadingDigits".as_bytes());
                let is_format = same_bytes(n.as_slice(), "format".as_bytes());
                if is_leading || is_format || same_bytes(n.as_slice(), "intlFormat".as_bytes()) {
                    match text(d, i + 1, n.as_slice()) {
                        Ok((t, p)) => {
                            proof {
                                lemma_text_advances(d@, (i + 1) as nat, n@, Seq::empty());
                            }
                            let ghost expected = format_child(f@, crate::metadata::text_view(international), n@, t@);
                            if is_leading {
                                let ghost before = f.leading_digits@;
                                f.leading_digits.push(t);
                                assert(texts_view(f.leading_digits@) =~= texts_view(before).push(t@));
                            } else if is_format {
                                f.format = Some(t.clone());
                                international = Some(t);
                            } else {
                                let na = "NA".to_owned();
                                if t == na {
                                    international = None;
                                } else {
                                    international = Some(t);
                                }
                            }
                            assert(expected == (f@, crate::metadata::text_view(international)));
                            i = p;
                        },
                        Err(e) => {
                            return Err(e);
                        },
                    }
                } else {
                    return Err(unhandled_child("format", n.as_slice()));
                }
            },
            XmlEvent::End { name: n } => {
                if same_bytes(n.as_slice(), name) {
                    let ghost fv = f@;
                    let ghost iv = crate::metadata::text_view(international);
                    let intl = match international {
                        Some(v) => {
                            let mut g = f.clone();
                            g.format = Some(v);
                            Some(g)
                        },
                        None => None,
                    };
                    assert(format_option_view(intl) == international_of(fv, iv));
                    return Ok(((f, intl), i + 1));
                } else {
                    return Err(mismatched_tag(n.as_slice()));
                }
            },
            XmlEvent::Eof => {
                return Err(LoadError::UnexpectedEof);
            },
            _ => {
                i = i + 1;
            },
        }
    }
}

/// Reads `availableFormats` element `name`, whose start tag precedes position
/// `k`: the national formats, and the international ones.
fn formats(d: &XmlDocument, k: usize, name: &[u8], defaults: &Format) -> (res: Result<((Vec<Format>, Vec<Format>), usize), LoadError>)
    requires
        k <= d.events@.len(),
    ensures
        match res {
            Ok(((national, international), p)) => spec_formats(d@, k as nat, name@, defaults@, (Seq::empty(), Seq::empty()))
                == Ok::<_, ErrorModel>(((formats_view(national@), formats_view(international@)), p as nat)),
            Err(e) => spec_formats(d@, k as nat, name@, defaults@, (Seq::empty(), Seq::empty()))
                == Err::<((Seq<FormatModel>, Seq<FormatModel>), nat), _>(e@),
        },
{
    proof {
        reveal(spec_formats);
    }
    let mut national: Vec<Format> = Vec::new();
    let mut international: Vec<Format> = Vec::new();
    assert(formats_view(national@) =~= Seq::empty());
    assert(formats_view(international@) =~= Seq::empty());
    let mut i = k;
    loop
        invariant
            k <= i <= d.events@.len(),
            spec_formats(d@, i as nat, name@, defaults@, (formats_view(national@), formats_view(international@)))
                == spec_formats(d@, k as nat, name@, defaults@, (Seq::empty(), Seq::empty())),
        decreases d.events@.len() - i,
    {
        proof {
            reveal(spec_formats);
        }
        if i >= d.events.len() {
            return Err(end_error(d));
        }
        match &d.events[i] {
            XmlEvent::Start { name: n, attributes } => {
                if same_bytes(n.as_slice(), "numberFormat".as_bytes()) {
                    match format(d, i + 1, n.as_slice(), attributes, defaults) {
                        Ok(((natl, intl), p)) => {
                            proof {
                                lemma_format_advances(d@, (i + 1) as nat, n@, attributes_view(attributes@), defaults@);
                            }
                            let ghost lists = (formats_view(national@), formats_view(international@));
                            let ghost read = (natl@, format_option_view(intl));
                            let ghost before_national = national@;
                            let ghost before_international = international@;
                            national.push(natl);
                            assert(formats_view(national@) =~= formats_view(before_national).push(read.0));
                            match intl {
                                Some(x) => {
                                    international.push(x);
                                    assert(formats_view(international@) =~= formats_view(before_international).push(read.1->0));
                                },
                                None => {},
                            }
                            assert(add_format(lists, read) == (formats_view(national@), formats_view(international@)));
                            i = p;
                        },
                        Err(e) => {
                            return Err(e);
                        },
                    }
                } else {
                    return Err(unhandled_child("formats", n.as_slice()));
                }
            },
            XmlEvent::End { name: n } => {
                if same_bytes(n.as_slice(), name) {
                    return Ok(((national, international), i + 1));
                } else {
                    return Err(mismatched_tag(n.as_slice()));
                }
            },
            XmlEvent::Eof => {
                return Err(LoadError::UnexpectedEof);
            },
            _ => {
                i = i + 1;
            },
        }
    }
}

/// Applies one attribute of a `territory` element to `meta`.
fn apply_territory_attr(meta: &mut Metadata, key: &[u8], value: &[u8]) -> (res: Result<(), LoadError>)
    ensures
        match res {
            Ok(()) => apply_territory_attribute(old(meta)@, key@, value@) == Ok::<_, ErrorModel>(final(meta)@),
            Err(e) => apply_territory_attribute(old(meta)@, key@, value@) == Err::<MetadataModel, _>(e@),
        },
{
    proof {
        reveal(apply_territory_attribute);
    }
    let v = match decode(value) {
        Some(v) => v,
        None => {
            return Err(LoadError::Utf8);
        },
    };
    if decode(key).is_none() {
        return Err(LoadError::Utf8);
    }
    if same_bytes(key, "id".as_bytes()) {
        meta.id = Some(v);
    } else if same_bytes(key, "countryCode".as_bytes()) {
        match parse_u16(value) {
            Some(c) => {
                meta.country_code = Some(c);
            },
            None => {
                return Err(LoadError::ParseInt);
            },
        }
    } else if same_bytes(key, "internationalPrefix".as_bytes()) {
        meta.international_prefix = Some(v);
    } else if same_bytes(key, "preferredInternationalPrefix".as_bytes()) {
        meta.preferred_international_prefix = Some(v);
    } else if same_bytes(key, "nationalPrefix".as_bytes()) {
        meta.national_prefix = Some(v);
    } else if same_bytes(key, "preferredExtnPrefix".as_bytes()) {
        meta.preferred_extension_prefix = Some(v);
    } else if same_bytes(key, "nationalPrefixForParsing".as_bytes()) {
        meta.national_prefix_for_parsing = Some(v);
    } else if same_bytes(key, "nationalPrefixTransformRule".as_bytes()) {
        meta.national_prefix_transform_rule = Some(v);
    } else if same_bytes(key, "mainCountryForCode".as_bytes()) {
        match parse_bool(value) {
            Some(b) => {
                meta.main_country_for_code = b;
            },
            None => {
                return Err(LoadError::ParseBool);
            },
        }
    } else if same_bytes(key, "leadingDigits".as_bytes()) {
        meta.leading_digits = Some(v);
    } else if same_bytes(key, "mobileNumberPortableRegion".as_bytes()) {
        match parse_bool(value) {
            Some(b) => {
                meta.mobile_number_portable = b;
            },
            None => {
                return Err(LoadError::ParseBool);
            },
        }
    } else if same_bytes(key, "nationalPrefixFormattingRule".as_bytes()) {
        meta.defaults.format.national_prefix_formatting_rule = Some(v);
    } else if same_bytes(key, "nationalPrefixOptionalWhenFormatting".as_bytes()) {
        match parse_bool(value) {
            Some(b) => {
                meta.defaults.format.national_prefix_optional_when_formatting = b;
            },
            None => {
                return Err(LoadError::ParseBool);
            },
        }
    } else if same_bytes(key, "carrierCodeFormattingRule".as_bytes()) {
        meta.defaults.format.domestic_carrier = Some(v);
    } else {
        return Err(unhandled_attr("format", key, value));
    }
    Ok(())
}

/// Applies the attributes of a `territory` element in order to `meta`.
fn territory_attributes(attributes: &Vec<Result<XmlAttribute, String>>, meta: &mut Metadata) -> (res: Result<(), LoadError>)
    ensures
        match res {
            Ok(()) => spec_territory_attributes(attributes_view(attributes@), old(meta)@) == Ok::<_, ErrorModel>(final(meta)@),
            Err(e) => spec_territory_attributes(attributes_view(attributes@), old(meta)@) == Err::<MetadataModel, _>(e@),
        },
{
    proof {
        reveal(spec_territory_attributes);
    }
    let ghost all = attributes_view(attributes@);
    let ghost start = meta@;
    let mut i: usize = 0;
    assert(all.skip(0) =~= all);
    while i < attributes.len()
        invariant
            i <= attributes@.len(),
            all == attributes_view(attributes@),
            start == old(meta)@,
            spec_territory_attributes(all.skip(i as int), meta@) == spec_territory_attributes(all, start),
        decreases attributes@.len() - i,
    {
        proof {
            reveal(spec_territory_attributes);
        }
        assert(all.skip(i as int)[0] == all[i as int]);
        assert(all.skip(i as int).drop_first() =~= all.skip(i + 1));
        match &attributes[i] {
            Err(message) => {
                return Err(LoadError::Xml(message.clone()));
            },
            Ok(a) => match apply_territory_attr(meta, a.key.as_slice(), a.value.as_slice()) {
                Ok(()) => {},
                Err(e) => {
                    return Err(e);
                },
            },
        }
        i = i + 1;
    }
    assert(all.skip(i as int).len() == 0);
    Ok(())
}

/// Whether `name` is a descriptor element of a territory.
fn is_descriptor_slot(name: &[u8]) -> (res: bool)
    ensures
        res == descriptor_slot(name@),
{
    proof {
        reveal(descriptor_slot);
    }
    same_bytes(name, "generalDesc".as_bytes()) || same_bytes(name, "fixedLine".as_bytes())
        || same_bytes(name, "mobile".as_bytes()) || same_bytes(name, "tollFree".as_bytes())
        || same_bytes(name, "premiumRate".as_bytes()) || same_bytes(name, "sharedCost".as_bytes())
        || same_bytes(name, "personalNumber".as_bytes()) || same_bytes(name, "voip".as_bytes())
        || same_bytes(name, "pager".as_bytes()) || same_bytes(name, "uan".as_bytes())
        || same_bytes(name, "emergency".as_bytes()) || same_bytes(name, "voicemail".as_bytes())
        || same_bytes(name, "noInternationalDialling".as_bytes())
}

/// Records descriptor element `name` of a territory in its field of `meta`.
fn set_descriptor_field(meta: &mut Metadata, name: &[u8], desc: Descriptor)
    ensures
        final(meta)@ == set_descriptor(old(meta)@, name@, desc@),
{
    proof {
        reveal(set_descriptor);
    }
    if same_bytes(name, "generalDesc".as_bytes()) {
        meta.general = Some(desc);
    } else if same_bytes(name, "fixedLine".as_bytes()) {
        meta.fixed_line = Some(desc);
    } else if same_bytes(name, "mobile".as_bytes()) {
        meta.mobile = Some(desc);
    } else if same_bytes(name, "tollFree".as_bytes()) {
        meta.toll_free = Some(desc);
    } else if same_bytes(name, "premiumRate".as_bytes()) {
        meta.premium_rate = Some(desc);
    } else if same_bytes(name, "sharedCost".as_bytes()) {
        meta.shared_cost = Some(desc);
    } else if same_bytes(name, "personalNumber".as_bytes()) {
        meta.personal = Some(desc);
    } else if same_bytes(name, "voip".as_bytes()) {
        meta.voip = Some(desc);
    } else if same_bytes(name, "pager".as_bytes()) {
        meta.pager = Some(desc);
    } else if same_bytes(name, "uan".as_bytes()) {
        meta.uan = Some(desc);
    } else if same_bytes(name, "emergency".as_bytes()) {
        meta.emergency = Some(desc);
    } else if same_bytes(name, "voicemail".as_bytes()) {
        meta.voicemail = Some(desc);
    } else {
        meta.no_international = Some(desc);
    }
}

/// Reads child element `n` of a territory, whose start tag is at position
/// `i`, into `meta`; returns the position after it.
fn territory_child(d: &XmlDocument, i: usize, n: &[u8], meta: &mut Metadata) -> (res: Result<usize, LoadError>)
    requires
        i < d.events@.len(),
        d@.events[i as int] matches XmlEventView::Start { name, .. } && name == n@,
    ensures
        match res {
            Ok(p) => i < p <= d.events@.len() && spec_territory_body(d@, i as nat, old(meta)@)
                == spec_territory_body(d@, p as nat, final(meta)@),
            Err(e) => spec_territory_body(d@, i as nat, old(meta)@) == Err::<(MetadataModel, nat), _>(e@),
        },
{
    proof {
        reveal(spec_territory_body);
    }
    let count = d.events.len();
    assert(i + 1 <= count);
    if same_bytes(n, "references".as_bytes()) || same_bytes(n, "areaCodeOptional".as_bytes()) {
        let p = match ignore(d, i + 1, n) {
            Ok(p) => p,
            Err(e) => {
                return Err(e);
            },
        };
        proof {
            lemma_ignore_advances(d@, (i + 1) as nat, seq![n@]);
        }
        Ok(p)
    } else if is_descriptor_slot(n) {
        let (desc, p) = match descriptor(d, i + 1, n, &meta.defaults.descriptor) {
            Ok(r) => r,
            Err(e) => {
                return Err(e);
            },
        };
        proof {
            lemma_descriptor_advances(d@, (i + 1) as nat, n@, meta@.defaults.descriptor);
        }
        set_descriptor_field(meta, n, desc);
        Ok(p)
    } else if same_bytes(n, "availableFormats".as_bytes()) {
        let ((national, international), p) = match formats(d, i + 1, n, &meta.defaults.format) {
            Ok(r) => r,
            Err(e) => {
                return Err(e);
            },
        };
        proof {
            lemma_formats_advances(d@, (i + 1) as nat, n@, meta@.defaults.format, (Seq::empty(), Seq::empty()));
        }
        meta.format = national;
        meta.international_format = international;
        Ok(p)
    } else {
        Err(unhandled_child("territory", n))
    }
}

/// Reads a `territory` element, whose start tag (with `attributes`) precedes
/// position `k`: its metadata.
fn territory(d: &XmlDocument, k: usize, attributes: &Vec<Result<XmlAttribute, String>>) -> (res: Result<(Metadata, usize), LoadError>)
    requires
        k <= d.events@.len(),
    ensures
        match res {
            Ok((m, p)) => spec_territory(d@, k as nat, attributes_view(attributes@)) == Ok::<_, ErrorModel>((m@, p as nat)),
            Err(e) => spec_territory(d@, k as nat, attributes_view(attributes@)) == Err::<(MetadataModel, nat), _>(e@),
        },
{
    proof {
        reveal(spec_territory_body);
    }
    let mut meta = Metadata::default();
    match territory_attributes(attributes, &mut meta) {
        Ok(()) => {},
        Err(e) => {
            return Err(e);
        },
    }
    let ghost target = spec_territory(d@, k as nat, attributes_view(attributes@));
    let mut i = k;
    loop
        invariant
            k <= i <= d.events@.len(),
            target == spec_territory(d@, k as nat, attributes_view(attributes@)),
            spec_territory_body(d@, i as nat, meta@) == target,
        decreases d.events@.len() - i,
    {
        proof {
            reveal(spec_territory_body);
        }
        if i >= d.events.len() {
            return Err(end_error(d));
        }
        match &d.events[i] {
            XmlEvent::Start { name: n, .. } => {
                match territory_child(d, i, n.as_slice(), &mut meta) {
                    Ok(p) => {
                        i = p;
                    },
                    Err(e) => {
                        return Err(e);
                    },
                }
            },
            XmlEvent::End { name: n } => {
                if same_bytes(n.as_slice(), "territory".as_bytes()) {
                    return Ok((meta, i + 1));
                } else {
                    return Err(mismatched_tag(n.as_slice()));
                }
            },
            XmlEvent::Eof => {
                return Err(LoadError::UnexpectedEof);
            },
            _ => {
                i = i + 1;
            },
        }
    }
}

/// Reads a `territories` element, whose start tag precedes position `k`:
/// the metadata of each of its territories.
fn territories(d: &XmlDocument, k: usize) -> (res: Result<(Vec<Metadata>, usize), LoadError>)
    requires
        k <= d.events@.len(),
    ensures
        match res {
            Ok((list, p)) => spec_territories(d@, k as nat, Seq::empty()) == Ok::<_, ErrorModel>((metadata_list_view(list@), p as nat)),
            Err(e) => spec_territories(d@, k as nat, Seq::empty()) == Err::<(Seq<MetadataModel>, nat), _>(e@),
        },
{
    proof {
        reveal(spec_territories);
    }
    let mut list: Vec<Metadata> = Vec::new();
    assert(metadata_list_view(list@) =~= Seq::empty());
    let mut i = k;
    loop
        invariant
            k <= i <= d.events@.len(),
            spec_territories(d@, i as nat, metadata_list_view(list@)) == spec_territories(d@, k as nat, Seq::empty()),
        decreases d.events@.len() - i,
    {
        proof {
            reveal(spec_territories);
        }
        if i >= d.events.len() {
            return Err(end_error(d));
        }
        match &d.events[i] {
            XmlEvent::Start { name: n, attributes } => {
                if same_bytes(n.as_slice(), "territory".as_bytes()) {
                    match territory(d, i + 1, attributes) {
                        Ok((m, p)) => {
                            proof {
                                lemma_territory_advances(d@, (i + 1) as nat, attributes_view(attributes@));
                            }
                            let ghost before = list@;
                            list.push(m);
                            assert(metadata_list_view(list@) =~= metadata_list_view(before).push(m@));
                            i = p;
                        },
                        Err(e) => {
                            return Err(e);
                        },
                    }
                } else {
                    match ignore(d, i + 1, n.as_slice()) {
                        Ok(p) => {
                            proof {
                                lemma_ignore_advances(d@, (i + 1) as nat, seq![n@]);
                            }
                            i = p;
                        },
                        Err(e) => {
                            return Err(e);
                        },
                    }
                }
            },
            XmlEvent::End { name: n } => {
                if same_bytes(n.as_slice(), "territories".as_bytes()) {
                    return Ok((list, i + 1));
                } else {
                    return Err(mismatched_tag(n.as_slice()));
                }
            },
            XmlEvent::Eof => {
                return Err(LoadError::UnexpectedEof);
            },
            _ => {
                i = i + 1;
            },
        }
    }
}

/// Reads the metadata of every territory of a tokenized metadata document.
pub fn metadata(document: &XmlDocument) -> (res: Result<Vec<Metadata>, LoadError>)
    ensures
        match res {
            Ok(list) => spec_metadata(document@) == Ok::<_, ErrorModel>(metadata_list_view(list@)),
            Err(e) => spec_metadata(document@) == Err::<Seq<MetadataModel>, _>(e@),
        },
{
    proof {
        reveal(spec_metadata_from);
    }
    let d = document;
    let mut result: Vec<Metadata> = Vec::new();
    assert(metadata_list_view(result@) =~= Seq::empty());
    let mut i: usize = 0;
    loop
        invariant
            i <= d.events@.len(),
            d == document,
            spec_metadata_from(d@, i as nat, metadata_list_view(result@)) == spec_metadata(d@),
        decreases d.events@.len() - i,
    {
        proof {
            reveal(spec_metadata_from);
        }
        if i >= d.events.len() {
            match &d.failure {
                Some(message) => {
                    return Err(LoadError::Xml(message.clone()));
                },
                None => {
                    return Ok(result);
                },
            }
        }
        match &d.events[i] {
            XmlEvent::Eof => {
                return Ok(result);
            },
            XmlEvent::Start { name: n, .. } => {
                let n = n.as_slice();
                if same_bytes(n, "phoneNumberMetadata".as_bytes()) {
                    i = i + 1;
                } else if same_bytes(n, "territories".as_bytes()) {
                    match territories(d, i + 1) {
                        Ok((mut found, p)) => {
                            proof {
                                lemma_territories_advances(d@, (i + 1) as nat, Seq::empty());
                            }
                            let ghost before = result@;
                            let ghost added = found@;
                            result.append(&mut found);
                            assert(metadata_list_view(result@) =~= metadata_list_view(before) + metadata_list_view(added));
                            i = p;
                        },
                        Err(e) => {
                            return Err(e);
                        },
                    }
                } else {
                    match ignore(d, i + 1, n) {
                        Ok(p) => {
                            proof {
                                lemma_ignore_advances(d@, (i + 1) as nat, seq![n@]);
                            }
                            i = p;
                        },
                        Err(e) => {
                            return Err(e);
                        },
                    }
                }
            },
            XmlEvent::End { name: n } => {
                if !same_bytes(n.as_slice(), "phoneNumberMetadata".as_bytes()) {
                    return Err(mismatched_tag(n.as_slice()));
                }
                i = i + 1;
            },
            _ => {
                i = i + 1;
            },
        }
    }
}

/// Loads the metadata of every territory from the bytes of a metadata
/// document: tokenizes them with quick-xml, then reads the events. When
/// tokenizing fails, the error's message is that of quick-xml.
pub fn load(input: &[u8]) -> (res: Result<Vec<Metadata>, LoadError>)
    ensures
        outcome(res) == spec_metadata(scanned(xml_scan(input@))),
        xml_scan(input@).1 is Some ==> res is Err,
{
    let document = scan(input);
    let res = metadata(&document);
    proof {
        if document.failure is Some {
            crate::laws::law_malformed_document_never_loads(document@);
        }
        assert(document@ == scanned(xml_scan(input@)));
    }
    res
}

} // verus!
