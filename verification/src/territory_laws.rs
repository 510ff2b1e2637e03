//! What the attributes of a `territory` element give: each attribute sets the
//! field it names, and nothing else, and what it sets stays through the
//! reading of the territory's children.
use vstd::prelude::*;
use vstd::utf8::*;
use crate::format_laws::{flag_from, last_value, text_or};
use crate::error::ErrorModel;
use crate::metadata::{DefaultsModel, DescriptorModel, FormatModel, MetadataModel, empty_metadata};
use crate::reading_laws::lemma_utf8_bytes_injective;
use crate::schema::{
    apply_territory_attribute, lemma_descriptor_advances, lemma_formats_advances,
    lemma_ignore_advances, set_descriptor, skipped_in_territory, descriptor_slot, spec_descriptor,
    spec_formats, spec_ignore, spec_territory, spec_territory_attributes, spec_territory_body,
    unhandled_element,
};
use crate::text::{spec_parse_bool, spec_parse_u16, utf8_bytes};
use crate::xml::{DocumentView, XmlAttributeView, XmlEventView};

verus! {

/// The number an attribute's value spells, or `default` when there is no
/// attribute.
pub open spec fn number_or(value: Option<Seq<u8>>, default: Option<u16>) -> Option<u16> {
    match value {
        Some(v) => spec_parse_u16(v),
        None => default,
    }
}

/// Metadata `r` carries what the attributes of a `territory` element say over
/// `m`: each field that an attribute names has the value of the last
/// attribute of that name, and `m`'s value where there is none.
pub open spec fn carries_territory_attributes(
    r: MetadataModel,
    attributes: Seq<Result<XmlAttributeView, Seq<char>>>,
    m: MetadataModel,
) -> bool {
    &&& r.id == text_or(last_value(attributes, utf8_bytes("id")), m.id)
    &&& r.country_code == number_or(last_value(attributes, utf8_bytes("countryCode")), m.country_code)
    &&& r.international_prefix == text_or(
        last_value(attributes, utf8_bytes("internationalPrefix")),
        m.international_prefix,
    )
    &&& r.preferred_international_prefix == text_or(
        last_value(attributes, utf8_bytes("preferredInternationalPrefix")),
        m.preferred_international_prefix,
    )
    &&& r.national_prefix == text_or(last_value(attributes, utf8_bytes("nationalPrefix")), m.national_prefix)
    &&& r.preferred_extension_prefix == text_or(
        last_value(attributes, utf8_bytes("preferredExtnPrefix")),
        m.preferred_extension_prefix,
    )
    &&& r.national_prefix_for_parsing == text_or(
        last_value(attributes, utf8_bytes("nationalPrefixForParsing")),
        m.national_prefix_for_parsing,
    )
    &&& r.national_prefix_transform_rule == text_or(
        last_value(attributes, utf8_bytes("nationalPrefixTransformRule")),
        m.national_prefix_transform_rule,
    )
    &&& flag_from(
        last_value(attributes, utf8_bytes("mainCountryForCode")),
        m.main_country_for_code,
        r.main_country_for_code,
    )
    &&& r.leading_digits == text_or(last_value(attributes, utf8_bytes("leadingDigits")), m.leading_digits)
    &&& flag_from(
        last_value(attributes, utf8_bytes("mobileNumberPortableRegion")),
        m.mobile_number_portable,
        r.mobile_number_portable,
    )
    &&& r.defaults.format.national_prefix_formatting_rule == text_or(
        last_value(attributes, utf8_bytes("nationalPrefixFormattingRule")),
        m.defaults.format.national_prefix_formatting_rule,
    )
    &&& flag_from(
        last_value(attributes, utf8_bytes("nationalPrefixOptionalWhenFormatting")),
        m.defaults.format.national_prefix_optional_when_formatting,
        r.defaults.format.national_prefix_optional_when_formatting,
    )
    &&& r.defaults.format.domestic_carrier == text_or(
        last_value(attributes, utf8_bytes("carrierCodeFormattingRule")),
        m.defaults.format.domestic_carrier,
    )
}

/// `r` and `m` agree on every field that no attribute of a `territory`
/// element names.
pub open spec fn same_apart_from_attributes(r: MetadataModel, m: MetadataModel) -> bool {
    m == MetadataModel {
        id: m.id,
        country_code: m.country_code,
        international_prefix: m.international_prefix,
        preferred_international_prefix: m.preferred_international_prefix,
        national_prefix: m.national_prefix,
        preferred_extension_prefix: m.preferred_extension_prefix,
        national_prefix_for_parsing: m.national_prefix_for_parsing,
        national_prefix_transform_rule: m.national_prefix_transform_rule,
        main_country_for_code: m.main_country_for_code,
        leading_digits: m.leading_digits,
        mobile_number_portable: m.mobile_number_portable,
        defaults: DefaultsModel {
            format: FormatModel {
                national_prefix_formatting_rule: m.defaults.format.national_prefix_formatting_rule,
                national_prefix_optional_when_formatting: m.defaults.format.national_prefix_optional_when_formatting,
                domestic_carrier: m.defaults.format.domestic_carrier,
                ..r.defaults.format
            },
            ..r.defaults
        },
        ..r
    }
}

proof fn lemma_territory_keys_distinct()
    ensures
        utf8_bytes("internationalPrefix") != utf8_bytes("preferredExtnPrefix"),
        utf8_bytes("preferredInternationalPrefix") != utf8_bytes("nationalPrefixFormattingRule"),
{
    lemma_utf8_bytes_injective();
    reveal_strlit("internationalPrefix");
    reveal_strlit("preferredExtnPrefix");
    reveal_strlit("preferredInternationalPrefix");
    reveal_strlit("nationalPrefixFormattingRule");
    assert("internationalPrefix"@[0] != "preferredExtnPrefix"@[0]);
    assert("preferredInternationalPrefix"@[0] != "nationalPrefixFormattingRule"@[0]);
}

/// The attributes of a `territory` element, applied in order over `m`, set
/// each field they name to the last value given for it (a flag to what its
/// value spells), keep `m`'s value of each field that none names, and change
/// no other field.
#[verifier::spinoff_prover]
#[verifier::rlimit(100)]
pub proof fn law_territory_attributes(attributes: Seq<Result<XmlAttributeView, Seq<char>>>, m: MetadataModel)
    ensures
        spec_territory_attributes(attributes, m) matches Ok(r) ==> {
            &&& carries_territory_attributes(r, attributes, m)
            &&& same_apart_from_attributes(r, m)
        },
    decreases attributes.len(),
{
    reveal(spec_territory_attributes);
    if attributes.len() > 0 {
        if let Ok(a) = attributes[0] {
            if let Ok(next) = apply_territory_attribute(m, a.key, a.value) {
                law_territory_attributes(attributes.drop_first(), next);
                reveal(apply_territory_attribute);
                lemma_territory_keys_distinct();
                lemma_utf8_bytes_injective();
                reveal_strlit("id");
                reveal_strlit("countryCode");
                reveal_strlit("internationalPrefix");
                reveal_strlit("preferredInternationalPrefix");
                reveal_strlit("nationalPrefix");
                reveal_strlit("preferredExtnPrefix");
                reveal_strlit("nationalPrefixForParsing");
                reveal_strlit("nationalPrefixTransformRule");
                reveal_strlit("mainCountryForCode");
                reveal_strlit("leadingDigits");
                reveal_strlit("mobileNumberPortableRegion");
                reveal_strlit("nationalPrefixFormattingRule");
                reveal_strlit("nationalPrefixOptionalWhenFormatting");
                reveal_strlit("carrierCodeFormattingRule");
            }
        }
    }
}

/// The fields that the attributes of a `territory` element name are the
/// same in `r` as in `m`.
pub open spec fn same_attribute_fields(r: MetadataModel, m: MetadataModel) -> bool {
    &&& r.id == m.id
    &&& r.country_code == m.country_code
    &&& r.international_prefix == m.international_prefix
    &&& r.preferred_international_prefix == m.preferred_international_prefix
    &&& r.national_prefix == m.national_prefix
    &&& r.preferred_extension_prefix == m.preferred_extension_prefix
    &&& r.national_prefix_for_parsing == m.national_prefix_for_parsing
    &&& r.national_prefix_transform_rule == m.national_prefix_transform_rule
    &&& r.main_country_for_code == m.main_country_for_code
    &&& r.leading_digits == m.leading_digits
    &&& r.mobile_number_portable == m.mobile_number_portable
    &&& r.defaults == m.defaults
}

/// Reading the children of a territory leaves the fields that its attributes
/// set, and its defaults, as they were.
pub proof fn law_territory_children_keep_attributes(d: DocumentView, k: nat, m: MetadataModel)
    ensures
        spec_territory_body(d, k, m) matches Ok((r, _)) ==> same_attribute_fields(r, m),
    decreases d.events.len() - k,
{
    reveal(spec_territory_body);
    if k < d.events.len() {
        match d.events[k as int] {
            XmlEventView::Start { name: n, .. } => if skipped_in_territory(n) {
                lemma_ignore_advances(d, k + 1, seq![n]);
                if let Ok(p) = spec_ignore(d, k + 1, seq![n]) {
                    law_territory_children_keep_attributes(d, p, m);
                }
            } else if descriptor_slot(n) {
                lemma_descriptor_advances(d, k + 1, n, m.defaults.descriptor);
                if let Ok((desc, p)) = spec_descriptor(d, k + 1, n, m.defaults.descriptor) {
                    reveal(set_descriptor);
                    law_territory_children_keep_attributes(d, p, set_descriptor(m, n, desc));
                }
            } else if n == utf8_bytes("availableFormats") {
                lemma_formats_advances(d, k + 1, n, m.defaults.format, (Seq::empty(), Seq::empty()));
                if let Ok((lists, p)) = spec_formats(d, k + 1, n, m.defaults.format, (Seq::empty(), Seq::empty())) {
                    law_territory_children_keep_attributes(d, p, MetadataModel { format: lists.0, international_format: lists.1, ..m });
                }
            },
            XmlEventView::End { .. } => {},
            XmlEventView::Eof => {},
            _ => law_territory_children_keep_attributes(d, k + 1, m),
        }
    }
}

/// The metadata read from a `territory` element has, for each field that an
/// attribute names, the value of the last attribute of that name: the flags
/// `mainCountryForCode` and `mobileNumberPortableRegion` each set their own
/// field to what their value spells, and stay false when absent; the other
/// fields stay unset when their attribute is absent.
pub proof fn law_territory_carries_its_attributes(d: DocumentView, k: nat, attributes: Seq<Result<XmlAttributeView, Seq<char>>>)
    ensures
        spec_territory(d, k, attributes) matches Ok((r, _)) ==> carries_territory_attributes(r, attributes, empty_metadata()),
{
    law_territory_attributes(attributes, empty_metadata());
    if let Ok(m) = spec_territory_attributes(attributes, empty_metadata()) {
        law_territory_children_keep_attributes(d, k, m);
    }
}

proof fn lemma_descriptor_names_distinct()
    ensures
        utf8_bytes("generalDesc") != utf8_bytes("premiumRate"),
        utf8_bytes("fixedLine") != utf8_bytes("emergency"),
        utf8_bytes("fixedLine") != utf8_bytes("voicemail"),
        utf8_bytes("emergency") != utf8_bytes("voicemail"),
        utf8_bytes("references") != utf8_bytes("sharedCost"),
{
    lemma_utf8_bytes_injective();
    reveal_strlit("generalDesc");
    reveal_strlit("premiumRate");
    reveal_strlit("fixedLine");
    reveal_strlit("emergency");
    reveal_strlit("voicemail");
    assert("generalDesc"@[0] != "premiumRate"@[0]);
    assert("fixedLine"@[0] != "emergency"@[0]);
    assert("fixedLine"@[0] != "voicemail"@[0]);
    assert("emergency"@[0] != "voicemail"@[0]);
    reveal_strlit("references");
    reveal_strlit("sharedCost");
    assert("references"@[0] != "sharedCost"@[0]);
}

/// Each descriptor child of a territory fills the field of its own name, and
/// no other: `generalDesc` the general descriptor, `fixedLine` the fixed
/// line one, and so on to `noInternationalDialling`.
#[verifier::spinoff_prover]
#[verifier::rlimit(100)]
pub proof fn law_descriptor_fills_its_own_field(m: MetadataModel, desc: DescriptorModel)
    ensures
        set_descriptor(m, utf8_bytes("generalDesc"), desc) == (MetadataModel { general: Some(desc), ..m }),
        set_descriptor(m, utf8_bytes("fixedLine"), desc) == (MetadataModel { fixed_line: Some(desc), ..m }),
        set_descriptor(m, utf8_bytes("mobile"), desc) == (MetadataModel { mobile: Some(desc), ..m }),
        set_descriptor(m, utf8_bytes("tollFree"), desc) == (MetadataModel { toll_free: Some(desc), ..m }),
        set_descriptor(m, utf8_bytes("premiumRate"), desc) == (MetadataModel { premium_rate: Some(desc), ..m }),
        set_descriptor(m, utf8_bytes("sharedCost"), desc) == (MetadataModel { shared_cost: Some(desc), ..m }),
        set_descriptor(m, utf8_bytes("personalNumber"), desc) == (MetadataModel { personal: Some(desc), ..m }),
        set_descriptor(m, utf8_bytes("voip"), desc) == (MetadataModel { voip: Some(desc), ..m }),
        set_descriptor(m, utf8_bytes("pager"), desc) == (MetadataModel { pager: Some(desc), ..m }),
        set_descriptor(m, utf8_bytes("uan"), desc) == (MetadataModel { uan: Some(desc), ..m }),
        set_descriptor(m, utf8_bytes("emergency"), desc) == (MetadataModel { emergency: Some(desc), ..m }),
        set_descriptor(m, utf8_bytes("voicemail"), desc) == (MetadataModel { voicemail: Some(desc), ..m }),
        set_descriptor(m, utf8_bytes("noInternationalDialling"), desc)
            == (MetadataModel { no_international: Some(desc), ..m }),
{
    reveal(set_descriptor);
    lemma_descriptor_names_distinct();
    lemma_utf8_bytes_injective();
    reveal_strlit("generalDesc");
    reveal_strlit("fixedLine");
    reveal_strlit("mobile");
    reveal_strlit("tollFree");
    reveal_strlit("premiumRate");
    reveal_strlit("sharedCost");
    reveal_strlit("personalNumber");
    reveal_strlit("voip");
    reveal_strlit("pager");
    reveal_strlit("uan");
    reveal_strlit("emergency");
    reveal_strlit("voicemail");
    reveal_strlit("noInternationalDialling");
}

/// A descriptor child of a territory is read from the territory's default
/// descriptor and recorded under its own name; reading goes on after it.
pub proof fn law_territory_descriptor_child(
    d: DocumentView,
    k: nat,
    m: MetadataModel,
    n: Seq<u8>,
    attributes: Seq<Result<XmlAttributeView, Seq<char>>>,
    desc: DescriptorModel,
    p: nat,
)
    requires
        k < d.events.len(),
        d.events[k as int] == (XmlEventView::Start { name: n, attributes }),
        descriptor_slot(n),
        spec_descriptor(d, k + 1, n, m.defaults.descriptor) == Ok::<_, ErrorModel>((desc, p)),
    ensures
        spec_territory_body(d, k, m) == spec_territory_body(d, p, set_descriptor(m, n, desc)),
{
    reveal(spec_territory_body);
    reveal(descriptor_slot);
    lemma_descriptor_advances(d, k + 1, n, m.defaults.descriptor);
    lemma_utf8_bytes_injective();
    reveal_strlit("references");
    reveal_strlit("areaCodeOptional");
    reveal_strlit("generalDesc");
    reveal_strlit("fixedLine");
    reveal_strlit("mobile");
    reveal_strlit("tollFree");
    reveal_strlit("premiumRate");
    reveal_strlit("sharedCost");
    reveal_strlit("personalNumber");
    reveal_strlit("voip");
    reveal_strlit("pager");
    reveal_strlit("uan");
    reveal_strlit("emergency");
    reveal_strlit("voicemail");
    reveal_strlit("noInternationalDialling");
}


/// An `availableFormats` child of a territory gives the territory's national
/// and international formats, each read from the territory's default format;
/// reading goes on after it.
pub proof fn law_territory_formats_child(
    d: DocumentView,
    k: nat,
    m: MetadataModel,
    attributes: Seq<Result<XmlAttributeView, Seq<char>>>,
    lists: (Seq<FormatModel>, Seq<FormatModel>),
    p: nat,
)
    requires
        k < d.events.len(),
        d.events[k as int] == (XmlEventView::Start { name: utf8_bytes("availableFormats"), attributes }),
        spec_formats(d, k + 1, utf8_bytes("availableFormats"), m.defaults.format, (Seq::empty(), Seq::empty()))
            == Ok::<_, ErrorModel>((lists, p)),
    ensures
        spec_territory_body(d, k, m)
            == spec_territory_body(d, p, MetadataModel { format: lists.0, international_format: lists.1, ..m }),
{
    reveal(spec_territory_body);
    reveal(descriptor_slot);
    lemma_formats_advances(d, k + 1, utf8_bytes("availableFormats"), m.defaults.format, (Seq::empty(), Seq::empty()));
    lemma_utf8_bytes_injective();
    reveal_strlit("availableFormats");
    reveal_strlit("references");
    reveal_strlit("areaCodeOptional");
    assert("availableFormats"@[1] != "areaCodeOptional"@[1]);
    reveal_strlit("generalDesc");
    reveal_strlit("fixedLine");
    reveal_strlit("mobile");
    reveal_strlit("tollFree");
    reveal_strlit("premiumRate");
    reveal_strlit("sharedCost");
    reveal_strlit("personalNumber");
    reveal_strlit("voip");
    reveal_strlit("pager");
    reveal_strlit("uan");
    reveal_strlit("emergency");
    reveal_strlit("voicemail");
    reveal_strlit("noInternationalDialling");
}


/// An attribute that a `territory` element takes: one of the fourteen it
/// names, in UTF-8, with the country code's value spelling a number and a
/// flag's value spelling `true` or `false`.
pub open spec fn territory_attribute_accepted(a: XmlAttributeView) -> bool {
    &&& valid_utf8(a.key)
    &&& valid_utf8(a.value)
    &&& {
        ||| a.key == utf8_bytes("id")
        ||| (a.key == utf8_bytes("countryCode") && spec_parse_u16(a.value) is Some)
        ||| a.key == utf8_bytes("internationalPrefix")
        ||| a.key == utf8_bytes("preferredInternationalPrefix")
        ||| a.key == utf8_bytes("nationalPrefix")
        ||| a.key == utf8_bytes("preferredExtnPrefix")
        ||| a.key == utf8_bytes("nationalPrefixForParsing")
        ||| a.key == utf8_bytes("nationalPrefixTransformRule")
        ||| (a.key == utf8_bytes("mainCountryForCode") && spec_parse_bool(a.value) is Some)
        ||| a.key == utf8_bytes("leadingDigits")
        ||| (a.key == utf8_bytes("mobileNumberPortableRegion") && spec_parse_bool(a.value) is Some)
        ||| a.key == utf8_bytes("nationalPrefixFormattingRule")
        ||| (a.key == utf8_bytes("nationalPrefixOptionalWhenFormatting") && spec_parse_bool(a.value) is Some)
        ||| a.key == utf8_bytes("carrierCodeFormattingRule")
    }
}

#[verifier::spinoff_prover]
#[verifier::rlimit(100)]
proof fn lemma_territory_attribute_accepted(m: MetadataModel, a: XmlAttributeView)
    ensures
        apply_territory_attribute(m, a.key, a.value) is Ok <==> territory_attribute_accepted(a),
{
    reveal(apply_territory_attribute);
    lemma_territory_keys_distinct();
    lemma_utf8_bytes_injective();
    reveal_strlit("id");
    reveal_strlit("countryCode");
    reveal_strlit("internationalPrefix");
    reveal_strlit("preferredInternationalPrefix");
    reveal_strlit("nationalPrefix");
    reveal_strlit("preferredExtnPrefix");
    reveal_strlit("nationalPrefixForParsing");
    reveal_strlit("nationalPrefixTransformRule");
    reveal_strlit("mainCountryForCode");
    reveal_strlit("leadingDigits");
    reveal_strlit("mobileNumberPortableRegion");
    reveal_strlit("nationalPrefixFormattingRule");
    reveal_strlit("nationalPrefixOptionalWhenFormatting");
    reveal_strlit("carrierCodeFormattingRule");
}

/// The attributes of a `territory` element are applied without error
/// exactly when each of them was tokenized and is one the element takes: an
/// attribute of another name, a country code that is no number or a flag
/// that is neither `true` nor `false` is refused.
pub proof fn law_territory_attributes_accepted(attributes: Seq<Result<XmlAttributeView, Seq<char>>>, m: MetadataModel)
    ensures
        spec_territory_attributes(attributes, m) is Ok
            <==> forall|i: int| 0 <= i < attributes.len()
                ==> (#[trigger] attributes[i] matches Ok(a) && territory_attribute_accepted(a)),
    decreases attributes.len(),
{
    reveal(spec_territory_attributes);
    if attributes.len() > 0 {
        let rest = attributes.drop_first();
        assert forall|i: int| 0 <= i < rest.len() implies #[trigger] rest[i] == attributes[i + 1] by {}
        if let Ok(a) = attributes[0] {
            lemma_territory_attribute_accepted(m, a);
            if let Ok(next) = apply_territory_attribute(m, a.key, a.value) {
                law_territory_attributes_accepted(rest, next);
                if forall|i: int| 0 <= i < rest.len() ==> (#[trigger] rest[i] matches Ok(b) && territory_attribute_accepted(b)) {
                    assert forall|i: int| 0 <= i < attributes.len()
                        implies (#[trigger] attributes[i] matches Ok(b) && territory_attribute_accepted(b)) by {
                        if i > 0 {
                            assert(attributes[i] == rest[i - 1]);
                        }
                    }
                } else {
                    let j = choose|j: int| 0 <= j < rest.len() && !(#[trigger] rest[j] matches Ok(b) && territory_attribute_accepted(b));
                    assert(attributes[j + 1] == rest[j]);
                }
            }
        }
    }
}

/// An attribute of a name that a `territory` element does not take is
/// refused with an error that names it.
pub proof fn law_unknown_territory_attribute_refused(m: MetadataModel, key: Seq<u8>, value: Seq<u8>)
    requires
        valid_utf8(key),
        valid_utf8(value),
        key != utf8_bytes("id"),
        key != utf8_bytes("countryCode"),
        key != utf8_bytes("internationalPrefix"),
        key != utf8_bytes("preferredInternationalPrefix"),
        key != utf8_bytes("nationalPrefix"),
        key != utf8_bytes("preferredExtnPrefix"),
        key != utf8_bytes("nationalPrefixForParsing"),
        key != utf8_bytes("nationalPrefixTransformRule"),
        key != utf8_bytes("mainCountryForCode"),
        key != utf8_bytes("leadingDigits"),
        key != utf8_bytes("mobileNumberPortableRegion"),
        key != utf8_bytes("nationalPrefixFormattingRule"),
        key != utf8_bytes("nationalPrefixOptionalWhenFormatting"),
        key != utf8_bytes("carrierCodeFormattingRule"),
    ensures
        apply_territory_attribute(m, key, value) == Err::<MetadataModel, _>(
            ErrorModel::UnhandledAttribute { phase: "format"@, name: decode_utf8(key), value: decode_utf8(value) },
        ),
{
    reveal(apply_territory_attribute);
}


/// A child element of a territory that is not skipped, not a descriptor and
/// not `availableFormats` is refused with an error that names it.
pub proof fn law_territory_unknown_child(
    d: DocumentView,
    k: nat,
    m: MetadataModel,
    n: Seq<u8>,
    attributes: Seq<Result<XmlAttributeView, Seq<char>>>,
)
    requires
        k < d.events.len(),
        d.events[k as int] == (XmlEventView::Start { name: n, attributes }),
        !skipped_in_territory(n),
        !descriptor_slot(n),
        n != utf8_bytes("availableFormats"),
    ensures
        spec_territory_body(d, k, m) == Err::<(MetadataModel, nat), _>(unhandled_element("territory"@, n)),
{
    reveal(spec_territory_body);
}

/// The `references` and `areaCodeOptional` children of a territory are
/// skipped whole, and change nothing.
pub proof fn law_territory_skipped_child(
    d: DocumentView,
    k: nat,
    m: MetadataModel,
    n: Seq<u8>,
    attributes: Seq<Result<XmlAttributeView, Seq<char>>>,
    p: nat,
)
    requires
        k < d.events.len(),
        d.events[k as int] == (XmlEventView::Start { name: n, attributes }),
        n == utf8_bytes("references") || n == utf8_bytes("areaCodeOptional"),
        spec_ignore(d, k + 1, seq![n]) == Ok::<_, ErrorModel>(p),
    ensures
        spec_territory_body(d, k, m) == spec_territory_body(d, p, m),
{
    reveal(spec_territory_body);
    lemma_ignore_advances(d, k + 1, seq![n]);
}

} // verus!
