//! The metadata of a territory, as the XML metadata file describes it.
use vstd::prelude::*;

verus! {

pub open spec fn text_view(text: Option<String>) -> Option<Seq<char>> {
    match text {
        Some(s) => Some(s@),
        None => None,
    }
}

pub open spec fn texts_view(texts: Seq<String>) -> Seq<Seq<char>> {
    texts.map_values(|s: String| s@)
}

/// Copies an optional string.
fn copy_text(text: &Option<String>) -> (res: Option<String>)
    ensures
        text_view(res) == text_view(*text),
{
    match text {
        Some(s) => Some(s.clone()),
        None => None,
    }
}

/// Copies a list of strings.
fn copy_texts(texts: &Vec<String>) -> (res: Vec<String>)
    ensures
        texts_view(res@) == texts_view(texts@),
{
    let res = texts.clone();
    assert(res@ =~= texts@) by {
        assert forall|i: int| 0 <= i < res@.len() implies res@[i] == texts@[i] by {
            assert(cloned::<String>(texts[i], res[i]));
        }
    }
    res
}

/// The patterns that describe one kind of number of a territory.
#[derive(Debug)]
pub struct Descriptor {
    pub national_number: Option<String>,
    pub possible_number: Option<String>,
    pub possible_length: Vec<u16>,
    pub possible_local_length: Vec<u16>,
    pub example: Option<String>,
}

/// Mathematical model of a `Descriptor`.
pub struct DescriptorModel {
    pub national_number: Option<Seq<char>>,
    pub possible_number: Option<Seq<char>>,
    pub possible_length: Seq<u16>,
    pub possible_local_length: Seq<u16>,
    pub example: Option<Seq<char>>,
}

impl View for Descriptor {
    type V = DescriptorModel;

    open spec fn view(&self) -> DescriptorModel {
        DescriptorModel {
            national_number: text_view(self.national_number),
            possible_number: text_view(self.possible_number),
            possible_length: self.possible_length@,
            possible_local_length: self.possible_local_length@,
            example: text_view(self.example),
        }
    }
}

pub open spec fn empty_descriptor() -> DescriptorModel {
    DescriptorModel {
        national_number: None,
        possible_number: None,
        possible_length: Seq::empty(),
        possible_local_length: Seq::empty(),
        example: None,
    }
}

impl Default for Descriptor {
    fn default() -> (res: Self)
        ensures
            res@ == empty_descriptor(),
    {
        Descriptor {
            national_number: None,
            possible_number: None,
            possible_length: Vec::new(),
            possible_local_length: Vec::new(),
            example: None,
        }
    }
}

impl Clone for Descriptor {
    fn clone(&self) -> (res: Self)
        ensures
            res@ == self@,
    {
        let possible_length = self.possible_length.clone();
        let possible_local_length = self.possible_local_length.clone();
        assert(possible_length@ =~= self.possible_length@);
        assert(possible_local_length@ =~= self.possible_local_length@);
        Descriptor {
            national_number: copy_text(&self.national_number),
            possible_number: copy_text(&self.possible_number),
            possible_length,
            possible_local_length,
            example: copy_text(&self.example),
        }
    }
}

/// How numbers that match a pattern are formatted.
#[derive(Debug)]
pub struct Format {
    pub pattern: Option<String>,
    pub format: Option<String>,
    pub leading_digits: Vec<String>,
    pub national_prefix: Option<String>,
    pub national_prefix_formatting_rule: Option<String>,
    pub national_prefix_optional_when_formatting: bool,
    pub domestic_carrier: Option<String>,
}

/// Mathematical model of a `Format`.
pub struct FormatModel {
    pub pattern: Option<Seq<char>>,
    pub format: Option<Seq<char>>,
    pub leading_digits: Seq<Seq<char>>,
    pub national_prefix: Option<Seq<char>>,
    pub national_prefix_formatting_rule: Option<Seq<char>>,
    pub national_prefix_optional_when_formatting: bool,
    pub domestic_carrier: Option<Seq<char>>,
}

impl View for Format {
    type V = FormatModel;

    open spec fn view(&self) -> FormatModel {
        FormatModel {
            pattern: text_view(self.pattern),
            format: text_view(self.format),
            leading_digits: texts_view(self.leading_digits@),
            national_prefix: text_view(self.national_prefix),
            national_prefix_formatting_rule: text_view(self.national_prefix_formatting_rule),
            national_prefix_optional_when_formatting: self.national_prefix_optional_when_formatting,
            domestic_carrier: text_view(self.domestic_carrier),
        }
    }
}

pub open spec fn formats_view(formats: Seq<Format>) -> Seq<FormatModel> {
    formats.map_values(|f: Format| f@)
}

pub open spec fn format_option_view(f: Option<Format>) -> Option<FormatModel> {
    match f {
        Some(f) => Some(f@),
        None => None,
    }
}

pub open spec fn empty_format() -> FormatModel {
    FormatModel {
        pattern: None,
        format: None,
        leading_digits: Seq::empty(),
        national_prefix: None,
        national_prefix_formatting_rule: None,
        national_prefix_optional_when_formatting: false,
        domestic_carrier: None,
    }
}

impl Default for Format {
    fn default() -> (res: Self)
        ensures
            res@ == empty_format(),
    {
        let leading_digits: Vec<String> = Vec::new();
        assert(texts_view(leading_digits@) =~= Seq::empty());
        Format {
            pattern: None,
            format: None,
            leading_digits,
            national_prefix: None,
            national_prefix_formatting_rule: None,
            national_prefix_optional_when_formatting: false,
            domestic_carrier: None,
        }
    }
}

impl Clone for Format {
    fn clone(&self) -> (res: Self)
        ensures
            res@ == self@,
    {
        Format {
            pattern: copy_text(&self.pattern),
            format: copy_text(&self.format),
            leading_digits: copy_texts(&self.leading_digits),
            national_prefix: copy_text(&self.national_prefix),
            national_prefix_formatting_rule: copy_text(&self.national_prefix_formatting_rule),
            national_prefix_optional_when_formatting: self.national_prefix_optional_when_formatting,
            domestic_carrier: copy_text(&self.domestic_carrier),
        }
    }
}

/// Copies a list of formats.
fn copy_formats(formats: &Vec<Format>) -> (res: Vec<Format>)
    ensures
        formats_view(res@) == formats_view(formats@),
{
    let mut res: Vec<Format> = Vec::new();
    let mut i: usize = 0;
    while i < formats.len()
        invariant
            i <= formats@.len(),
            formats_view(res@) == formats_view(formats@.take(i as int)),
        decreases formats@.len() - i,
    {
        let f = formats[i].clone();
        let ghost prev = res@;
        res.push(f);
        assert(res@ == prev.push(f));
        assert(formats_view(res@) =~= formats_view(prev).push(f@));
        assert(formats@.take(i + 1) =~= formats@.take(i as int).push(formats@[i as int]));
        assert(formats_view(formats@.take(i + 1)) =~= formats_view(formats@.take(i as int)).push(formats@[i as int]@));
        i = i + 1;
    }
    assert(formats@.take(i as int) =~= formats@);
    res
}

/// The values that a territory's elements start from.
#[derive(Debug)]
pub struct Defaults {
    pub format: Format,
    pub descriptor: Descriptor,
}

/// Mathematical model of `Defaults`.
pub struct DefaultsModel {
    pub format: FormatModel,
    pub descriptor: DescriptorModel,
}

impl View for Defaults {
    type V = DefaultsModel;

    open spec fn view(&self) -> DefaultsModel {
        DefaultsModel { format: self.format@, descriptor: self.descriptor@ }
    }
}

impl Default for Defaults {
    fn default() -> (res: Self)
        ensures
            res@ == (DefaultsModel { format: empty_format(), descriptor: empty_descriptor() }),
    {
        Defaults { format: Format::default(), descriptor: Descriptor::default() }
    }
}

impl Clone for Defaults {
    fn clone(&self) -> (res: Self)
        ensures
            res@ == self@,
    {
        Defaults { format: self.format.clone(), descriptor: self.descriptor.clone() }
    }
}

/// Everything the metadata file says of one territory.
#[derive(Debug)]
pub struct Metadata {
    pub general: Option<Descriptor>,
    pub fixed_line: Option<Descriptor>,
    pub mobile: Option<Descriptor>,
    pub toll_free: Option<Descriptor>,
    pub premium_rate: Option<Descriptor>,
    pub shared_cost: Option<Descriptor>,
    pub personal: Option<Descriptor>,
    pub voip: Option<Descriptor>,
    pub pager: Option<Descriptor>,
    pub uan: Option<Descriptor>,
    pub emergency: Option<Descriptor>,
    pub voicemail: Option<Descriptor>,
    pub short_code: Option<Descriptor>,
    pub standard_rate: Option<Descriptor>,
    pub carrier: Option<Descriptor>,
    pub no_international: Option<Descriptor>,
    pub id: Option<String>,
    pub country_code: Option<u16>,
    pub international_prefix: Option<String>,
    pub preferred_international_prefix: Option<String>,
    pub national_prefix: Option<String>,
    pub preferred_extension_prefix: Option<String>,
    pub national_prefix_for_parsing: Option<String>,
    pub national_prefix_transform_rule: Option<String>,
    pub format: Vec<Format>,
    pub international_format: Vec<Format>,
    pub main_country_for_code: bool,
    pub leading_digits: Option<String>,
    pub mobile_number_portable: bool,
    pub defaults: Defaults,
}

/// Mathematical model of `Metadata`.
pub struct MetadataModel {
    pub general: Option<DescriptorModel>,
    pub fixed_line: Option<DescriptorModel>,
    pub mobile: Option<DescriptorModel>,
    pub toll_free: Option<DescriptorModel>,
    pub premium_rate: Option<DescriptorModel>,
    pub shared_cost: Option<DescriptorModel>,
    pub personal: Option<DescriptorModel>,
    pub voip: Option<DescriptorModel>,
    pub pager: Option<DescriptorModel>,
    pub uan: Option<DescriptorModel>,
    pub emergency: Option<DescriptorModel>,
    pub voicemail: Option<DescriptorModel>,
    pub short_code: Option<DescriptorModel>,
    pub standard_rate: Option<DescriptorModel>,
    pub carrier: Option<DescriptorModel>,
    pub no_international: Option<DescriptorModel>,
    pub id: Option<Seq<char>>,
    pub country_code: Option<u16>,
    pub international_prefix: Option<Seq<char>>,
    pub preferred_international_prefix: Option<Seq<char>>,
    pub national_prefix: Option<Seq<char>>,
    pub preferred_extension_prefix: Option<Seq<char>>,
    pub national_prefix_for_parsing: Option<Seq<char>>,
    pub national_prefix_transform_rule: Option<Seq<char>>,
    pub format: Seq<FormatModel>,
    pub international_format: Seq<FormatModel>,
    pub main_country_for_code: bool,
    pub leading_digits: Option<Seq<char>>,
    pub mobile_number_portable: bool,
    pub defaults: DefaultsModel,
}

pub open spec fn descriptor_view(d: Option<Descriptor>) -> Option<DescriptorModel> {
    match d {
        Some(d) => Some(d@),
        None => None,
    }
}

impl View for Metadata {
    type V = MetadataModel;

    open spec fn view(&self) -> MetadataModel {
        MetadataModel {
            general: descriptor_view(self.general),
            fixed_line: descriptor_view(self.fixed_line),
            mobile: descriptor_view(self.mobile),
            toll_free: descriptor_view(self.toll_free),
            premium_rate: descriptor_view(self.premium_rate),
            shared_cost: descriptor_view(self.shared_cost),
            personal: descriptor_view(self.personal),
            voip: descriptor_view(self.voip),
            pager: descriptor_view(self.pager),
            uan: descriptor_view(self.uan),
            emergency: descriptor_view(self.emergency),
            voicemail: descriptor_view(self.voicemail),
            short_code: descriptor_view(self.short_code),
            standard_rate: descriptor_view(self.standard_rate),
            carrier: descriptor_view(self.carrier),
            no_international: descriptor_view(self.no_international),
            id: text_view(self.id),
            country_code: self.country_code,
            international_prefix: text_view(self.international_prefix),
            preferred_international_prefix: text_view(self.preferred_international_prefix),
            national_prefix: text_view(self.national_prefix),
            preferred_extension_prefix: text_view(self.preferred_extension_prefix),
            national_prefix_for_parsing: text_view(self.national_prefix_for_parsing),
            national_prefix_transform_rule: text_view(self.national_prefix_transform_rule),
            format: formats_view(self.format@),
            international_format: formats_view(self.international_format@),
            main_country_for_code: self.main_country_for_code,
            leading_digits: text_view(self.leading_digits),
            mobile_number_portable: self.mobile_number_portable,
            defaults: self.defaults@,
        }
    }
}

pub open spec fn metadata_list_view(list: Seq<Metadata>) -> Seq<MetadataModel> {
    list.map_values(|m: Metadata| m@)
}

/// The model of what reading metadata gave: the list, or the error.
pub open spec fn outcome(res: Result<Vec<Metadata>, crate::error::LoadError>) -> Result<Seq<MetadataModel>, crate::error::ErrorModel> {
    match res {
        Ok(list) => Ok(metadata_list_view(list@)),
        Err(e) => Err(e@),
    }
}

pub open spec fn empty_metadata() -> MetadataModel {
    MetadataModel {
        general: None,
        fixed_line: None,
        mobile: None,
        toll_free: None,
        premium_rate: None,
        shared_cost: None,
        personal: None,
        voip: None,
        pager: None,
        uan: None,
        emergency: None,
        voicemail: None,
        short_code: None,
        standard_rate: None,
        carrier: None,
        no_international: None,
        id: None,
        country_code: None,
        international_prefix: None,
        preferred_international_prefix: None,
        national_prefix: None,
        preferred_extension_prefix: None,
        national_prefix_for_parsing: None,
        national_prefix_transform_rule: None,
        format: Seq::empty(),
        international_format: Seq::empty(),
        main_country_for_code: false,
        leading_digits: None,
        mobile_number_portable: false,
        defaults: DefaultsModel { format: empty_format(), descriptor: empty_descriptor() },
    }
}

impl Default for Metadata {
    fn default() -> (res: Self)
        ensures
            res@ == empty_metadata(),
    {
        let format: Vec<Format> = Vec::new();
        let international_format: Vec<Format> = Vec::new();
        assert(formats_view(format@) =~= Seq::empty());
        assert(formats_view(international_format@) =~= Seq::empty());
        Metadata {
            general: None,
            fixed_line: None,
            mobile: None,
            toll_free: None,
            premium_rate: None,
            shared_cost: None,
            personal: None,
            voip: None,
            pager: None,
            uan: None,
            emergency: None,
            voicemail: None,
            short_code: None,
            standard_rate: None,
            carrier: None,
            no_international: None,
            id: None,
            country_code: None,
            international_prefix: None,
            preferred_international_prefix: None,
            national_prefix: None,
            preferred_extension_prefix: None,
            national_prefix_for_parsing: None,
            national_prefix_transform_rule: None,
            format,
            international_format,
            main_country_for_code: false,
            leading_digits: None,
            mobile_number_portable: false,
            defaults: Defaults::default(),
        }
    }
}

/// Copies an optional descriptor.
fn copy_descriptor(d: &Option<Descriptor>) -> (res: Option<Descriptor>)
    ensures
        descriptor_view(res) == descriptor_view(*d),
{
    match d {
        Some(d) => Some(d.clone()),
        None => None,
    }
}

impl Clone for Metadata {
    fn clone(&self) -> (res: Self)
        ensures
            res@ == self@,
    {
        Metadata {
            general: copy_descriptor(&self.general),
            fixed_line: copy_descriptor(&self.fixed_line),
            mobile: copy_descriptor(&self.mobile),
            toll_free: copy_descriptor(&self.toll_free),
            premium_rate: copy_descriptor(&self.premium_rate),
            shared_cost: copy_descriptor(&self.shared_cost),
            personal: copy_descriptor(&self.personal),
            voip: copy_descriptor(&self.voip),
            pager: copy_descriptor(&self.pager),
            uan: copy_descriptor(&self.uan),
            emergency: copy_descriptor(&self.emergency),
            voicemail: copy_descriptor(&self.voicemail),
            short_code: copy_descriptor(&self.short_code),
            standard_rate: copy_descriptor(&self.standard_rate),
            carrier: copy_descriptor(&self.carrier),
            no_international: copy_descriptor(&self.no_international),
            id: copy_text(&self.id),
            country_code: self.country_code,
            international_prefix: copy_text(&self.international_prefix),
            preferred_international_prefix: copy_text(&self.preferred_international_prefix),
            national_prefix: copy_text(&self.national_prefix),
            preferred_extension_prefix: copy_text(&self.preferred_extension_prefix),
            national_prefix_for_parsing: copy_text(&self.national_prefix_for_parsing),
            national_prefix_transform_rule: copy_text(&self.national_prefix_transform_rule),
            format: copy_formats(&self.format),
            international_format: copy_formats(&self.international_format),
            main_country_for_code: self.main_country_for_code,
            leading_digits: copy_text(&self.leading_digits),
            mobile_number_portable: self.mobile_number_portable,
            defaults: self.defaults.clone(),
        }
    }
}

} // verus!
