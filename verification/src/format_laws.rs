//! What reading a `numberFormat` element gives, stated by how its results
//! relate: the leading digits it collects, and the attributes it applies over
//! the territory's formatting defaults.
use vstd::prelude::*;
use vstd::utf8::*;
use crate::error::ErrorModel;
use crate::metadata::FormatModel;
use crate::reading_laws::lemma_utf8_bytes_injective;
use crate::schema::{
    add_format, apply_format_attribute, format_child, lemma_format_advances, lemma_text_advances,
    spec_format, spec_format_attributes, spec_format_body, spec_formats, spec_text, unhandled_element,
};
use crate::text::{spec_parse_bool, utf8_bytes};
use crate::xml::{DocumentView, XmlAttributeView, XmlEventView};

verus! {

/// `f` with no leading digits.
pub open spec fn without_leading(f: FormatModel) -> FormatModel {
    FormatModel { leading_digits: Seq::empty(), ..f }
}

/// What a `numberFormat` read gives with `ld` put ahead of the leading digits
/// of its national format and of its international format, if any.
pub open spec fn with_leading(
    ld: Seq<Seq<char>>,
    r: Result<((FormatModel, Option<FormatModel>), nat), ErrorModel>,
) -> Result<((FormatModel, Option<FormatModel>), nat), ErrorModel> {
    match r {
        Ok(((national, international), p)) => Ok((
            (
                FormatModel { leading_digits: ld + national.leading_digits, ..national },
                match international {
                    Some(g) => Some(FormatModel { leading_digits: ld + g.leading_digits, ..g }),
                    None => None,
                },
            ),
            p,
        )),
        Err(e) => Err(e),
    }
}

proof fn lemma_with_leading_twice(
    a: Seq<Seq<char>>,
    b: Seq<Seq<char>>,
    r: Result<((FormatModel, Option<FormatModel>), nat), ErrorModel>,
)
    ensures
        with_leading(a, with_leading(b, r)) == with_leading(a + b, r),
{
    if let Ok(((national, international), p)) = r {
        assert(a + (b + national.leading_digits) =~= (a + b) + national.leading_digits);
        if let Some(g) = international {
            assert(a + (b + g.leading_digits) =~= (a + b) + g.leading_digits);
        }
    }
}

/// The leading digits that a `numberFormat` element collects are added after
/// those it starts from: reading it from `f` gives what reading it from `f`
/// without leading digits gives, with the leading digits of `f` ahead, in the
/// national and in the international format.
pub proof fn law_leading_digits_accumulate(
    d: DocumentView,
    k: nat,
    name: Seq<u8>,
    f: FormatModel,
    international: Option<Seq<char>>,
)
    ensures
        spec_format_body(d, k, name, f, international)
            == with_leading(f.leading_digits, spec_format_body(d, k, name, without_leading(f), international)),
    decreases d.events.len() - k,
{
    reveal(spec_format_body);
    if k < d.events.len() {
        match d.events[k as int] {
            XmlEventView::Start { name: n, .. } => {
                if n == utf8_bytes("leadingDigits") || n == utf8_bytes("format") || n == utf8_bytes("intlFormat") {
                    lemma_text_advances(d, k + 1, n, Seq::empty());
                    if let Ok((t, p)) = spec_text(d, k + 1, n, Seq::empty()) {
                        let (f2, i2) = format_child(f, international, n, t);
                        let (g2, j2) = format_child(without_leading(f), international, n, t);
                        assert(i2 == j2);
                        assert(without_leading(f2) == without_leading(g2));
                        assert(f2.leading_digits =~= f.leading_digits + g2.leading_digits);
                        law_leading_digits_accumulate(d, p, name, f2, i2);
                        law_leading_digits_accumulate(d, p, name, g2, j2);
                        lemma_with_leading_twice(
                            f.leading_digits,
                            g2.leading_digits,
                            spec_format_body(d, p, name, without_leading(g2), j2),
                        );
                    }
                }
            },
            XmlEventView::End { .. } => {
                assert(f.leading_digits + Seq::<Seq<char>>::empty() =~= f.leading_digits);
            },
            XmlEventView::Eof => {},
            _ => law_leading_digits_accumulate(d, k + 1, name, f, international),
        }
    }
}

/// Each `leadingDigits` child of a `numberFormat` element adds its text to
/// the leading digits, after those read before it and ahead of those read
/// after it.
pub proof fn law_leading_digits_child(
    d: DocumentView,
    k: nat,
    name: Seq<u8>,
    f: FormatModel,
    international: Option<Seq<char>>,
    attributes: Seq<Result<XmlAttributeView, Seq<char>>>,
    t: Seq<char>,
    p: nat,
)
    requires
        k < d.events.len(),
        d.events[k as int] == (XmlEventView::Start { name: utf8_bytes("leadingDigits"), attributes }),
        spec_text(d, k + 1, utf8_bytes("leadingDigits"), Seq::empty()) == Ok::<_, ErrorModel>((t, p)),
    ensures
        spec_format_body(d, k, name, f, international)
            == with_leading(f.leading_digits.push(t), spec_format_body(d, p, name, without_leading(f), international)),
{
    reveal(spec_format_body);
    lemma_text_advances(d, k + 1, utf8_bytes("leadingDigits"), Seq::empty());
    let f2 = FormatModel { leading_digits: f.leading_digits.push(t), ..f };
    assert(without_leading(f2) == without_leading(f));
    law_leading_digits_accumulate(d, p, name, f2, international);
}

/// The value of the last attribute named `key`, if any.
pub open spec fn last_value(attributes: Seq<Result<XmlAttributeView, Seq<char>>>, key: Seq<u8>) -> Option<Seq<u8>>
    decreases attributes.len(),
{
    if attributes.len() == 0 {
        None
    } else {
        match last_value(attributes.drop_first(), key) {
            Some(v) => Some(v),
            None => match attributes[0] {
                Ok(a) => if a.key == key { Some(a.value) } else { None },
                Err(_) => None,
            },
        }
    }
}

/// The text of an attribute's value, or `default` when there is no attribute.
pub open spec fn text_or(value: Option<Seq<u8>>, default: Option<Seq<char>>) -> Option<Seq<char>> {
    match value {
        Some(v) => Some(decode_utf8(v)),
        None => default,
    }
}

/// `flag` is what an attribute's value spells, or `default` when there is no
/// attribute.
pub open spec fn flag_from(value: Option<Seq<u8>>, default: bool, flag: bool) -> bool {
    match value {
        Some(v) => spec_parse_bool(v) == Some(flag),
        None => flag == default,
    }
}

/// Format `g` carries what the attributes of a `numberFormat` element say
/// over `defaults`: the pattern, the national prefix formatting rule, the
/// carrier code formatting rule and whether the national prefix is optional,
/// each from the last attribute of its name, else from `defaults`.
pub open spec fn carries_format_attributes(
    g: FormatModel,
    attributes: Seq<Result<XmlAttributeView, Seq<char>>>,
    defaults: FormatModel,
) -> bool {
    &&& g.pattern == text_or(last_value(attributes, utf8_bytes("pattern")), defaults.pattern)
    &&& g.national_prefix_formatting_rule == text_or(
        last_value(attributes, utf8_bytes("nationalPrefixFormattingRule")),
        defaults.national_prefix_formatting_rule,
    )
    &&& g.domestic_carrier == text_or(
        last_value(attributes, utf8_bytes("carrierCodeFormattingRule")),
        defaults.domestic_carrier,
    )
    &&& flag_from(
        last_value(attributes, utf8_bytes("nationalPrefixOptionalWhenFormatting")),
        defaults.national_prefix_optional_when_formatting,
        g.national_prefix_optional_when_formatting,
    )
}

/// The attributes of a `numberFormat` element, applied over `defaults`, set
/// each of the four fields they name to the last value given for it, keep the
/// defaults for the fields that no attribute names, and change nothing else.
pub proof fn law_format_attributes(attributes: Seq<Result<XmlAttributeView, Seq<char>>>, defaults: FormatModel)
    ensures
        spec_format_attributes(attributes, defaults) matches Ok(f) ==> {
            &&& carries_format_attributes(f, attributes, defaults)
            &&& f.format == defaults.format
            &&& f.leading_digits == defaults.leading_digits
            &&& f.national_prefix == defaults.national_prefix
        },
    decreases attributes.len(),
{
    reveal(spec_format_attributes);
    if attributes.len() > 0 {
        if let Ok(a) = attributes[0] {
            if let Ok(next) = apply_format_attribute(defaults, a.key, a.value) {
                law_format_attributes(attributes.drop_first(), next);
                reveal(apply_format_attribute);
                lemma_utf8_bytes_injective();
                reveal_strlit("pattern");
                reveal_strlit("nationalPrefixFormattingRule");
                reveal_strlit("nationalPrefixOptionalWhenFormatting");
                reveal_strlit("carrierCodeFormattingRule");
                assert(utf8_bytes("pattern") != utf8_bytes("nationalPrefixFormattingRule"));
                assert(utf8_bytes("pattern") != utf8_bytes("nationalPrefixOptionalWhenFormatting"));
                assert(utf8_bytes("pattern") != utf8_bytes("carrierCodeFormattingRule"));
                assert(utf8_bytes("nationalPrefixFormattingRule") != utf8_bytes("nationalPrefixOptionalWhenFormatting"));
                assert(utf8_bytes("nationalPrefixFormattingRule") != utf8_bytes("carrierCodeFormattingRule"));
                assert(utf8_bytes("nationalPrefixOptionalWhenFormatting") != utf8_bytes("carrierCodeFormattingRule"));
            }
        }
    }
}

proof fn lemma_format_body_keeps_attributes(
    d: DocumentView,
    k: nat,
    name: Seq<u8>,
    f: FormatModel,
    international: Option<Seq<char>>,
    attributes: Seq<Result<XmlAttributeView, Seq<char>>>,
    defaults: FormatModel,
)
    requires
        carries_format_attributes(f, attributes, defaults),
    ensures
        spec_format_body(d, k, name, f, international) matches Ok(((national, intl), _)) ==> {
            &&& carries_format_attributes(national, attributes, defaults)
            &&& (intl matches Some(g) ==> carries_format_attributes(g, attributes, defaults))
        },
    decreases d.events.len() - k,
{
    reveal(spec_format_body);
    if k < d.events.len() {
        match d.events[k as int] {
            XmlEventView::Start { name: n, .. } => {
                lemma_text_advances(d, k + 1, n, Seq::empty());
                if let Ok((t, p)) = spec_text(d, k + 1, n, Seq::empty()) {
                    let (f2, i2) = format_child(f, international, n, t);
                    lemma_format_body_keeps_attributes(d, p, name, f2, i2, attributes, defaults);
                }
            },
            XmlEventView::End { .. } => {},
            XmlEventView::Eof => {},
            _ => lemma_format_body_keeps_attributes(d, k + 1, name, f, international, attributes, defaults),
        }
    }
}

/// A `numberFormat` element's own attributes override the territory's
/// formatting defaults in the national format it gives and in its
/// international format: a `carrierCodeFormattingRule` attribute, for one,
/// gives the domestic carrier rule of both.
pub proof fn law_format_attributes_override_defaults(
    d: DocumentView,
    k: nat,
    name: Seq<u8>,
    attributes: Seq<Result<XmlAttributeView, Seq<char>>>,
    defaults: FormatModel,
)
    ensures
        spec_format(d, k, name, attributes, defaults) matches Ok(((national, intl), _)) ==> {
            &&& carries_format_attributes(national, attributes, defaults)
            &&& (intl matches Some(g) ==> carries_format_attributes(g, attributes, defaults))
        },
{
    law_format_attributes(attributes, defaults);
    if let Ok(f) = spec_format_attributes(attributes, defaults) {
        lemma_format_body_keeps_attributes(d, k, name, f, None, attributes, defaults);
    }
}

/// A `format` child of a `numberFormat` element sets the format to its text,
/// and the international format with it; reading goes on after it.
pub proof fn law_format_child(
    d: DocumentView,
    k: nat,
    name: Seq<u8>,
    f: FormatModel,
    international: Option<Seq<char>>,
    attributes: Seq<Result<XmlAttributeView, Seq<char>>>,
    t: Seq<char>,
    p: nat,
)
    requires
        k < d.events.len(),
        d.events[k as int] == (XmlEventView::Start { name: utf8_bytes("format"), attributes }),
        spec_text(d, k + 1, utf8_bytes("format"), Seq::empty()) == Ok::<_, ErrorModel>((t, p)),
    ensures
        spec_format_body(d, k, name, f, international)
            == spec_format_body(d, p, name, FormatModel { format: Some(t), ..f }, Some(t)),
{
    reveal(spec_format_body);
    lemma_text_advances(d, k + 1, utf8_bytes("format"), Seq::empty());
    lemma_utf8_bytes_injective();
    reveal_strlit("format");
    reveal_strlit("leadingDigits");
}

/// An `intlFormat` child of a `numberFormat` element sets the international
/// format to its text, or to none where the text is `NA`, and leaves the
/// national format as it was; reading goes on after it.
pub proof fn law_intl_format_child(
    d: DocumentView,
    k: nat,
    name: Seq<u8>,
    f: FormatModel,
    international: Option<Seq<char>>,
    attributes: Seq<Result<XmlAttributeView, Seq<char>>>,
    t: Seq<char>,
    p: nat,
)
    requires
        k < d.events.len(),
        d.events[k as int] == (XmlEventView::Start { name: utf8_bytes("intlFormat"), attributes }),
        spec_text(d, k + 1, utf8_bytes("intlFormat"), Seq::empty()) == Ok::<_, ErrorModel>((t, p)),
    ensures
        spec_format_body(d, k, name, f, international)
            == spec_format_body(d, p, name, f, if t == "NA"@ { None } else { Some(t) }),
{
    reveal(spec_format_body);
    lemma_text_advances(d, k + 1, utf8_bytes("intlFormat"), Seq::empty());
    lemma_utf8_bytes_injective();
    reveal_strlit("intlFormat");
    reveal_strlit("format");
    reveal_strlit("leadingDigits");
}


/// A read of `availableFormats` that starts from `lists`: `lists` followed by
/// what the same read gives from nothing, list by list.
pub open spec fn lists_prepended(
    lists: (Seq<FormatModel>, Seq<FormatModel>),
    r: Result<((Seq<FormatModel>, Seq<FormatModel>), nat), ErrorModel>,
) -> Result<((Seq<FormatModel>, Seq<FormatModel>), nat), ErrorModel> {
    match r {
        Ok((found, p)) => Ok(((lists.0 + found.0, lists.1 + found.1), p)),
        Err(e) => Err(e),
    }
}

/// Reading `availableFormats` only appends to the lists read before: what
/// its children give does not depend on the lists they are added to.
pub proof fn law_formats_append(
    d: DocumentView,
    k: nat,
    name: Seq<u8>,
    defaults: FormatModel,
    lists: (Seq<FormatModel>, Seq<FormatModel>),
)
    ensures
        spec_formats(d, k, name, defaults, lists)
            == lists_prepended(lists, spec_formats(d, k, name, defaults, (Seq::empty(), Seq::empty()))),
    decreases d.events.len() - k,
{
    reveal(spec_formats);
    if k < d.events.len() {
        match d.events[k as int] {
            XmlEventView::Start { name: n, attributes } => if n == utf8_bytes("numberFormat") {
                lemma_format_advances(d, k + 1, n, attributes, defaults);
                if let Ok((read, p)) = spec_format(d, k + 1, n, attributes, defaults) {
                    let start = add_format((Seq::empty(), Seq::empty()), read);
                    law_formats_append(d, p, name, defaults, add_format(lists, read));
                    law_formats_append(d, p, name, defaults, start);
                    if let Ok((found, q)) = spec_formats(d, p, name, defaults, (Seq::empty(), Seq::empty())) {
                        assert(add_format(lists, read).0 + found.0 =~= lists.0 + (start.0 + found.0));
                        assert(add_format(lists, read).1 + found.1 =~= lists.1 + (start.1 + found.1));
                    }
                }
            },
            XmlEventView::End { .. } => {
                assert(lists.0 + Seq::<FormatModel>::empty() =~= lists.0);
                assert(lists.1 + Seq::<FormatModel>::empty() =~= lists.1);
            },
            XmlEventView::Eof => {},
            _ => law_formats_append(d, k + 1, name, defaults, lists),
        }
    }
}

/// Each `numberFormat` child of `availableFormats` gives exactly one national
/// format, ahead of those of the children after it, and its international
/// format, if it has one, ahead of theirs.
pub proof fn law_each_number_format_gives_one(
    d: DocumentView,
    k: nat,
    name: Seq<u8>,
    defaults: FormatModel,
    attributes: Seq<Result<XmlAttributeView, Seq<char>>>,
    national: FormatModel,
    international: Option<FormatModel>,
    p: nat,
)
    requires
        k < d.events.len(),
        d.events[k as int] == (XmlEventView::Start { name: utf8_bytes("numberFormat"), attributes }),
        spec_format(d, k + 1, utf8_bytes("numberFormat"), attributes, defaults)
            == Ok::<_, ErrorModel>(((national, international), p)),
    ensures
        spec_formats(d, k, name, defaults, (Seq::empty(), Seq::empty())) == lists_prepended(
            (
                seq![national],
                match international {
                    Some(g) => seq![g],
                    None => Seq::empty(),
                },
            ),
            spec_formats(d, p, name, defaults, (Seq::empty(), Seq::empty())),
        ),
{
    reveal(spec_formats);
    lemma_format_advances(d, k + 1, utf8_bytes("numberFormat"), attributes, defaults);
    let start = add_format((Seq::empty(), Seq::empty()), (national, international));
    law_formats_append(d, p, name, defaults, start);
    assert(start.0 =~= seq![national]);
    if let Some(g) = international {
        assert(start.1 =~= seq![g]);
    }
}


/// An attribute that a `numberFormat` element takes: one of the four it
/// names, in UTF-8, with a flag's value spelling `true` or `false`.
pub open spec fn format_attribute_accepted(a: XmlAttributeView) -> bool {
    &&& valid_utf8(a.key)
    &&& valid_utf8(a.value)
    &&& {
        ||| a.key == utf8_bytes("pattern")
        ||| a.key == utf8_bytes("nationalPrefixFormattingRule")
        ||| a.key == utf8_bytes("carrierCodeFormattingRule")
        ||| (a.key == utf8_bytes("nationalPrefixOptionalWhenFormatting") && spec_parse_bool(a.value) is Some)
    }
}

/// The attributes of a `numberFormat` element are applied without error
/// exactly when each of them was tokenized and is one the element takes,
/// whatever the defaults: an attribute of another name is refused.
pub proof fn law_format_attributes_accepted(attributes: Seq<Result<XmlAttributeView, Seq<char>>>, defaults: FormatModel)
    ensures
        spec_format_attributes(attributes, defaults) is Ok
            <==> forall|i: int| 0 <= i < attributes.len()
                ==> (#[trigger] attributes[i] matches Ok(a) && format_attribute_accepted(a)),
    decreases attributes.len(),
{
    reveal(spec_format_attributes);
    reveal(apply_format_attribute);
    lemma_utf8_bytes_injective();
    reveal_strlit("pattern");
    reveal_strlit("nationalPrefixFormattingRule");
    reveal_strlit("nationalPrefixOptionalWhenFormatting");
    reveal_strlit("carrierCodeFormattingRule");
    if attributes.len() > 0 {
        let rest = attributes.drop_first();
        assert forall|i: int| 0 <= i < rest.len() implies #[trigger] rest[i] == attributes[i + 1] by {}
        if let Ok(a) = attributes[0] {
            if let Ok(next) = apply_format_attribute(defaults, a.key, a.value) {
                law_format_attributes_accepted(rest, next);
                if forall|i: int| 0 <= i < rest.len() ==> (#[trigger] rest[i] matches Ok(b) && format_attribute_accepted(b)) {
                    assert forall|i: int| 0 <= i < attributes.len()
                        implies (#[trigger] attributes[i] matches Ok(b) && format_attribute_accepted(b)) by {
                        if i > 0 {
                            assert(attributes[i] == rest[i - 1]);
                        }
                    }
                } else {
                    let j = choose|j: int| 0 <= j < rest.len() && !(#[trigger] rest[j] matches Ok(b) && format_attribute_accepted(b));
                    assert(attributes[j + 1] == rest[j]);
                }
            }
        }
    }
}

/// An attribute of a name that a `numberFormat` element does not take is
/// refused with an error that names it.
pub proof fn law_unknown_format_attribute_refused(f: FormatModel, key: Seq<u8>, value: Seq<u8>)
    requires
        valid_utf8(key),
        valid_utf8(value),
        key != utf8_bytes("pattern"),
        key != utf8_bytes("nationalPrefixFormattingRule"),
        key != utf8_bytes("nationalPrefixOptionalWhenFormatting"),
        key != utf8_bytes("carrierCodeFormattingRule"),
    ensures
        apply_format_attribute(f, key, value) == Err::<FormatModel, _>(
            ErrorModel::UnhandledAttribute { phase: "format"@, name: decode_utf8(key), value: decode_utf8(value) },
        ),
{
    reveal(apply_format_attribute);
}


/// A child element of a `numberFormat` element other than `leadingDigits`,
/// `format` and `intlFormat` is refused with an error that names it.
pub proof fn law_format_unknown_child(
    d: DocumentView,
    k: nat,
    name: Seq<u8>,
    f: FormatModel,
    international: Option<Seq<char>>,
    n: Seq<u8>,
    attributes: Seq<Result<XmlAttributeView, Seq<char>>>,
)
    requires
        k < d.events.len(),
        d.events[k as int] == (XmlEventView::Start { name: n, attributes }),
        n != utf8_bytes("leadingDigits"),
        n != utf8_bytes("format"),
        n != utf8_bytes("intlFormat"),
    ensures
        spec_format_body(d, k, name, f, international)
            == Err::<((FormatModel, Option<FormatModel>), nat), _>(unhandled_element("format"@, n)),
{
    reveal(spec_format_body);
}

/// A child element of `availableFormats` other than `numberFormat` is
/// refused with an error that names it.
pub proof fn law_formats_unknown_child(
    d: DocumentView,
    k: nat,
    name: Seq<u8>,
    defaults: FormatModel,
    lists: (Seq<FormatModel>, Seq<FormatModel>),
    n: Seq<u8>,
    attributes: Seq<Result<XmlAttributeView, Seq<char>>>,
)
    requires
        k < d.events.len(),
        d.events[k as int] == (XmlEventView::Start { name: n, attributes }),
        n != utf8_bytes("numberFormat"),
    ensures
        spec_formats(d, k, name, defaults, lists)
            == Err::<((Seq<FormatModel>, Seq<FormatModel>), nat), _>(unhandled_element("formats"@, n)),
{
    reveal(spec_formats);
}

} // verus!
