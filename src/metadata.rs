//! Metadata extraction from embedded tags, with the header-dimension fallback.

use vstd::prelude::*;
use crate::record::ExifData;

verus! {

#[verifier::external_type_specification]
#[verifier::external_body]
pub struct ExExif(exif::Exif);

#[verifier::external_type_specification]
#[verifier::external_body]
pub struct ExTag(exif::Tag);

/// The embedded tags that metadata extraction reads.
pub enum MetaTag {
    DateTimeOriginal,
    DateTime,
    Make,
    Model,
    PixelXDimension,
    PixelYDimension,
}

/// Raw tag values as read from a file: the date tags as their stored ASCII
/// text, camera make and model as displayed, dimension tags as integers.
pub struct ExifTags {
    pub date_original: Option<String>,
    pub date_time: Option<String>,
    pub make: Option<String>,
    pub model: Option<String>,
    pub width: Option<u32>,
    pub height: Option<u32>,
}

/// A parsed tag container, with the bytes it was read from.
pub struct ExifContainer {
    parsed: exif::Exif,
    source: Ghost<Seq<u8>>,
}

impl ExifContainer {
    pub closed spec fn source(&self) -> Seq<u8> {
        self.source@
    }
}

/// Whether a file's bytes hold a tag container that parses.
pub uninterp spec fn exif_present_of(bytes: Seq<u8>) -> bool;

/// A text tag of the container in a file's bytes, as displayed.
pub uninterp spec fn exif_text_of(bytes: Seq<u8>, tag: MetaTag) -> Option<Seq<char>>;

/// The first ASCII string stored in a tag of the container in a file's bytes.
pub uninterp spec fn exif_ascii_of(bytes: Seq<u8>, tag: MetaTag) -> Option<Seq<char>>;

/// An integer tag of the container in a file's bytes.
pub uninterp spec fn exif_u32_of(bytes: Seq<u8>, tag: MetaTag) -> Option<u32>;

/// Relies on exif::Reader::read_from_container: the parsed tag container of
/// an image file's bytes, or `None` where it holds none that parses.
#[verifier::external_body]
fn read_exif(bytes: &[u8]) -> (r: Option<ExifContainer>)
    ensures
        match r {
            Some(c) => exif_present_of(bytes@) && c.source() == bytes@,
            None => !exif_present_of(bytes@),
        },
{
    let mut cursor = std::io::Cursor::new(bytes);
    let parsed = exif::Reader::new().read_from_container(&mut cursor).ok()?;
    Some(ExifContainer { parsed, source: Ghost(bytes@) })
}

/// Relies on exif::Tag: the tag constant for each tag that is read.
#[verifier::external_body]
fn to_exif_tag(t: &MetaTag) -> (r: exif::Tag) {
    match t {
        MetaTag::DateTimeOriginal => exif::Tag::DateTimeOriginal,
        MetaTag::DateTime => exif::Tag::DateTime,
        MetaTag::Make => exif::Tag::Make,
        MetaTag::Model => exif::Tag::Model,
        MetaTag::PixelXDimension => exif::Tag::PixelXDimension,
        MetaTag::PixelYDimension => exif::Tag::PixelYDimension,
    }
}

/// Relies on exif::Exif::get_field (primary image) and Field::display_value:
/// the tag's value as displayed text, where the tag is present.
#[verifier::external_body]
fn tag_text(c: &ExifContainer, t: &MetaTag) -> (r: Option<String>)
    ensures
        text_of(r) == exif_text_of(c.source(), *t),
{
    c.parsed.get_field(to_exif_tag(t), exif::In::PRIMARY).map(|f| f.display_value().to_string())
}

/// Relies on exif::Exif::get_field (primary image): the first string of a
/// tag stored as ASCII, its bytes read as UTF-8 (invalid sequences replaced).
#[verifier::external_body]
fn tag_ascii(c: &ExifContainer, t: &MetaTag) -> (r: Option<String>)
    ensures
        text_of(r) == exif_ascii_of(c.source(), *t),
{
    match &c.parsed.get_field(to_exif_tag(t), exif::In::PRIMARY)?.value {
        exif::Value::Ascii(v) => v.first().map(|b| String::from_utf8_lossy(b).into_owned()),
        _ => None,
    }
}

/// Relies on exif::Exif::get_field (primary image): the first value of a
/// tag stored as LONG or SHORT integers.
#[verifier::external_body]
fn tag_u32(c: &ExifContainer, t: &MetaTag) -> (r: Option<u32>)
    ensures
        r == exif_u32_of(c.source(), *t),
{
    match &c.parsed.get_field(to_exif_tag(t), exif::In::PRIMARY)?.value {
        exif::Value::Long(v) => v.first().copied(),
        exif::Value::Short(v) => v.first().map(|&x| x as u32),
        _ => None,
    }
}

/// Text with every leading and trailing double quote removed.
pub open spec fn trim_quotes_spec(s: Seq<char>) -> Seq<char>
    decreases s.len(),
{
    if s.len() > 0 && s[0] == '"' {
        trim_quotes_spec(s.subrange(1, s.len() as int))
    } else if s.len() > 0 && s[s.len() - 1] == '"' {
        trim_quotes_spec(s.subrange(0, s.len() - 1))
    } else {
        s
    }
}

/// Relies on str::trim_matches: all leading and trailing matches of the
/// pattern removed, repeatedly.
#[verifier::external_body]
fn trim_quotes(s: &str) -> (r: String)
    ensures
        r@ == trim_quotes_spec(s@),
{
    s.trim_matches('"').to_string()
}

/// The Unix timestamp of a tag date in the form `YYYY:MM:DD HH:MM:SS`,
/// read as UTC, or `None` where the text does not parse.
pub uninterp spec fn exif_timestamp_of(s: Seq<char>) -> Option<i64>;

/// Relies on chrono::NaiveDateTime::parse_from_str with the tag date format,
/// then and_utc and timestamp.
#[verifier::external_body]
fn parse_exif_datetime(s: &str) -> (r: Option<i64>)
    ensures
        r == exif_timestamp_of(s@),
{
    chrono::NaiveDateTime::parse_from_str(s, "%Y:%m:%d %H:%M:%S").ok().map(|dt| dt.and_utc().timestamp())
}

pub open spec fn text_of(o: Option<String>) -> Option<Seq<char>> {
    match o {
        Some(s) => Some(s@),
        None => None,
    }
}

/// The capture date: the original-capture tag where present, else the
/// generic date tag, parsed.
pub open spec fn capture_date(original: Option<Seq<char>>, generic: Option<Seq<char>>) -> Option<i64> {
    let chosen = if original is Some {
        original
    } else {
        generic
    };
    match chosen {
        Some(s) => exif_timestamp_of(s),
        None => None,
    }
}

pub open spec fn trimmed_text(o: Option<Seq<char>>) -> Option<Seq<char>> {
    match o {
        Some(s) => Some(trim_quotes_spec(s)),
        None => None,
    }
}

/// The metadata block that raw tag values give: the capture date, make and
/// model with quotes trimmed, and the dimensions as read.
pub open spec fn exif_block(
    original: Option<Seq<char>>,
    generic: Option<Seq<char>>,
    make: Option<Seq<char>>,
    model: Option<Seq<char>>,
    width: Option<u32>,
    height: Option<u32>,
    d: ExifData,
) -> bool {
    &&& d.date == capture_date(original, generic)
    &&& text_of(d.make) == trimmed_text(make)
    &&& text_of(d.model) == trimmed_text(model)
    &&& d.width == width
    &&& d.height == height
}

/// The metadata block that a set of raw tag values gives.
pub open spec fn exif_of_tags(t: ExifTags, d: ExifData) -> bool {
    exif_block(text_of(t.date_original), text_of(t.date_time), text_of(t.make), text_of(t.model), t.width, t.height, d)
}

fn trim_opt(o: &Option<String>) -> (r: Option<String>)
    ensures
        text_of(r) == trimmed_text(text_of(*o)),
{
    match o {
        Some(s) => Some(trim_quotes(s.as_str())),
        None => None,
    }
}

/// Builds the metadata block from raw tag values.
pub fn exif_from_tags(tags: &ExifTags) -> (r: ExifData)
    ensures
        exif_of_tags(*tags, r),
{
    let chosen = if tags.date_original.is_some() {
        &tags.date_original
    } else {
        &tags.date_time
    };
    let date = match chosen {
        Some(s) => parse_exif_datetime(s.as_str()),
        None => None,
    };
    ExifData { date, make: trim_opt(&tags.make), model: trim_opt(&tags.model), width: tags.width, height: tags.height }
}

/// Metadata from the tags embedded in a file's bytes; `None` where the bytes
/// hold no tag container that parses.
pub fn compute_exif(bytes: &[u8]) -> (r: Option<ExifData>)
    ensures
        match r {
            Some(d) => exif_present_of(bytes@) && exif_block(
                exif_ascii_of(bytes@, MetaTag::DateTimeOriginal),
                exif_ascii_of(bytes@, MetaTag::DateTime),
                exif_text_of(bytes@, MetaTag::Make),
                exif_text_of(bytes@, MetaTag::Model),
                exif_u32_of(bytes@, MetaTag::PixelXDimension),
                exif_u32_of(bytes@, MetaTag::PixelYDimension),
                d,
            ),
            None => !exif_present_of(bytes@),
        },
{
    let e = match read_exif(bytes) {
        Some(e) => e,
        None => return None,
    };
    let tags = ExifTags {
        date_original: tag_ascii(&e, &MetaTag::DateTimeOriginal),
        date_time: tag_ascii(&e, &MetaTag::DateTime),
        make: tag_text(&e, &MetaTag::Make),
        model: tag_text(&e, &MetaTag::Model),
        width: tag_u32(&e, &MetaTag::PixelXDimension),
        height: tag_u32(&e, &MetaTag::PixelYDimension),
    };
    let d = exif_from_tags(&tags);
    Some(d)
}

/// Whether the tags left the pixel dimensions unknown.
pub open spec fn needs_dims_spec(e: Option<ExifData>) -> bool {
    match e {
        Some(x) => x.width is None,
        None => true,
    }
}

pub fn needs_dimensions(e: &Option<ExifData>) -> (r: bool)
    ensures
        r == needs_dims_spec(*e),
{
    match e {
        Some(x) => x.width.is_none(),
        None => true,
    }
}

/// Metadata after the header-probe fallback: where the tags gave no width
/// and the probe gave dimensions, they fill width and height (in a fresh
/// block where there were no tags).
pub open spec fn with_dims_spec(e: Option<ExifData>, dims: Option<(u32, u32)>) -> Option<ExifData> {
    if needs_dims_spec(e) && dims is Some {
        let (w, h) = dims.unwrap();
        match e {
            Some(x) => Some(ExifData { width: Some(w), height: Some(h), ..x }),
            None => Some(ExifData { date: None, make: None, model: None, width: Some(w), height: Some(h) }),
        }
    } else {
        e
    }
}

pub fn with_dimensions(e: Option<ExifData>, dims: Option<(u32, u32)>) -> (r: Option<ExifData>)
    ensures
        r == with_dims_spec(e, dims),
{
    if !needs_dimensions(&e) {
        return e;
    }
    match dims {
        Some((w, h)) => match e {
            Some(x) => Some(ExifData { width: Some(w), height: Some(h), ..x }),
            None => Some(ExifData { date: None, make: None, model: None, width: Some(w), height: Some(h) }),
        },
        None => e,
    }
}

} // verus!
