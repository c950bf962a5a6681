//! What the gallery records of an image file: its title, its date and its
//! average colour, from what the file's XMP packet and pixels hold.
use vstd::prelude::*;
use crate::text::{push_str, push_char};
use crate::digest::hex_lower_digit;
use crate::clock::{parse_rfc3339, parse_naive_utc, rfc3339_instant, naive_utc_instant};
use crate::datamodel::datamodel::{ImageMetadata, Timestamp, BySize, SiteDataConfig};

verus! {

/// Why the metadata of an image could not be read.
#[derive(Debug)]
pub struct ImageMetadataError {
    /// What went wrong.
    pub error: Option<String>,
}

impl ImageMetadataError {
    /// An error with the given message.
    pub fn new(s: String) -> (e: ImageMetadataError)
        ensures
            e.error == Some(s),
    {
        ImageMetadataError { error: Some(s) }
    }
}

/// The properties of an image's XMP packet that the gallery reads.
#[derive(Debug)]
pub struct XmpFields {
    /// `dc:title[1]`.
    pub title: Option<String>,
    /// `exif:DateTimeDigitized`.
    pub date_digitized: Option<String>,
    /// `exif:DateTimeOriginal`.
    pub date_original: Option<String>,
}

/// What the file system says of when the file was created.
#[derive(Debug)]
pub enum FileCreated {
    /// The file's metadata could not be read.
    Unreadable,
    /// The metadata holds no creation time.
    Unknown,
    /// The file was created then.
    At(Timestamp),
}

/// The first format without a time zone that an XMP date is tried in.
pub const XMP_DATE_FORMAT: &'static str = "%Y-%m-%dT%H:%M:%S";
/// The second format without a time zone: with fractional seconds.
pub const XMP_DATE_FORMAT_FRACTION: &'static str = "%Y-%m-%dT%H:%M:%S%.f";

/// The instant an XMP date denotes: read as RFC 3339, else in UTC without a
/// time zone, without and then with fractional seconds.
pub open spec fn xmp_instant(text: Seq<char>) -> Option<(i64, u32)> {
    match rfc3339_instant(text) {
        Some(t) => Some(t),
        None => match naive_utc_instant(text, XMP_DATE_FORMAT@) {
            Some(t) => Some(t),
            None => naive_utc_instant(text, XMP_DATE_FORMAT_FRACTION@),
        },
    }
}

/// The instant an XMP date denotes, if it is written in a known format.
pub fn parse_xmp_date(text: &str) -> (t: Option<Timestamp>)
    ensures
        match t {
            Some(t) => xmp_instant(text@) == Some((t.secs, t.nanos)),
            None => xmp_instant(text@) is None,
        },
{
    match parse_rfc3339(text) {
        Some(t) => Some(t),
        None => match parse_naive_utc(text, XMP_DATE_FORMAT) {
            Some(t) => Some(t),
            None => parse_naive_utc(text, XMP_DATE_FORMAT_FRACTION),
        },
    }
}

/// The date of an image: from its XMP packet (digitized, else original), else
/// from the file's creation time. On failure, the message says why.
pub open spec fn image_date_spec(path: Seq<char>, xmp: XmpFields, created: FileCreated) -> Result<(i64, u32), Seq<char>> {
    let written = match xmp.date_digitized {
        Some(d) => Some(d),
        None => xmp.date_original,
    };
    match written {
        None => match created {
            FileCreated::Unreadable => Err("Failed to open file "@ + path + " to read timestamp"@),
            FileCreated::Unknown => Err("Failed to find image timestamp"@),
            FileCreated::At(t) => Ok((t.secs, t.nanos)),
        },
        Some(d) => match xmp_instant(d@) {
            Some(t) => Ok(t),
            None => Err("Failed to parse "@ + path + " XMP timestamp ("@ + d@ + ")"@),
        },
    }
}

/// The date of an image file shown as `path`.
pub fn image_date(path: &str, xmp: &XmpFields, created: &FileCreated) -> (r: Result<Timestamp, ImageMetadataError>)
    ensures
        match image_date_spec(path@, *xmp, *created) {
            Ok(t) => r matches Ok(d) && d.secs == t.0 && d.nanos == t.1,
            Err(m) => r matches Err(e) && e.error matches Some(s) && s@ == m,
        },
{
    let written = match &xmp.date_digitized {
        Some(d) => Some(d),
        None => xmp.date_original.as_ref(),
    };
    match written {
        None => match created {
            FileCreated::Unreadable => {
                let mut s = String::new();
                push_str(&mut s, "Failed to open file ");
                push_str(&mut s, path);
                push_str(&mut s, " to read timestamp");
                Err(ImageMetadataError::new(s))
            },
            FileCreated::Unknown => {
                let mut s = String::new();
                push_str(&mut s, "Failed to find image timestamp");
                Err(ImageMetadataError::new(s))
            },
            FileCreated::At(t) => Ok(*t),
        },
        Some(d) => match parse_xmp_date(d.as_str()) {
            Some(t) => Ok(t),
            None => {
                let mut s = String::new();
                push_str(&mut s, "Failed to parse ");
                push_str(&mut s, path);
                push_str(&mut s, " XMP timestamp (");
                push_str(&mut s, d.as_str());
                push_str(&mut s, ")");
                Err(ImageMetadataError::new(s))
            },
        },
    }
}

/// One channel of a pixel: red, green or blue.
pub open spec fn channel(p: (u8, u8, u8), c: int) -> int {
    if c == 0 { p.0 as int } else if c == 1 { p.1 as int } else { p.2 as int }
}

/// The sum of one channel over a row of pixels.
pub open spec fn row_sum(row: Seq<(u8, u8, u8)>, c: int) -> int
    decreases row.len(),
{
    if row.len() == 0 {
        0
    } else {
        row_sum(row.drop_last(), c) + channel(row.last(), c)
    }
}

/// The sum, over rows, of each row's average of one channel, each average
/// rounded down.
pub open spec fn row_averages(rows: Seq<Vec<(u8, u8, u8)>>, c: int, width: int) -> int
    decreases rows.len(),
{
    if rows.len() == 0 {
        0
    } else {
        row_averages(rows.drop_last(), c, width) + row_sum(rows.last()@, c) / width
    }
}

/// The average of one channel over an image: the average over rows of the
/// rows' averages, each rounded down.
pub open spec fn channel_average(rows: Seq<Vec<(u8, u8, u8)>>, c: int, width: int) -> int {
    row_averages(rows, c, width) / (rows.len() as int)
}

/// The sum, over rows of pixels, of each row's average of one channel, each
/// average rounded down.
pub open spec fn rows_average(rows: Seq<Seq<(u8, u8, u8)>>, c: int, width: int) -> int
    decreases rows.len(),
{
    if rows.len() == 0 {
        0
    } else {
        rows_average(rows.drop_last(), c, width) + row_sum(rows.last(), c) / width
    }
}

/// The pixels of rows held in vectors.
pub open spec fn pixel_rows(rows: Seq<Vec<(u8, u8, u8)>>) -> Seq<Seq<(u8, u8, u8)>> {
    rows.map_values(|r: Vec<(u8, u8, u8)>| r@)
}

/// The average colour of a decoded image with at least one row, in
/// hexadecimal: each channel averaged over rows of the rows' averages; black
/// when the rows hold no pixels.
pub open spec fn image_colour(rows: Seq<Seq<(u8, u8, u8)>>) -> Seq<char> {
    let w = rows[0].len() as int;
    if w == 0 {
        hex_colour_spec(0, 0, 0)
    } else {
        hex_colour_spec(
            rows_average(rows, 0, w) / (rows.len() as int),
            rows_average(rows, 1, w) / (rows.len() as int),
            rows_average(rows, 2, w) / (rows.len() as int),
        )
    }
}

proof fn lemma_row_averages_pixels(rows: Seq<Vec<(u8, u8, u8)>>, c: int, width: int)
    ensures
        row_averages(rows, c, width) == rows_average(pixel_rows(rows), c, width),
    decreases rows.len(),
{
    if rows.len() > 0 {
        lemma_row_averages_pixels(rows.drop_last(), c, width);
        assert(pixel_rows(rows).drop_last() =~= pixel_rows(rows.drop_last()));
        assert(pixel_rows(rows).last() == rows.last()@);
    }
}

/// What `image::load_from_memory` followed by `into_rgb8` makes of an image
/// file's bytes: its rows of RGB pixels, top to bottom, or the text of the
/// decoding error.
pub uninterp spec fn decoded_rgb(bytes: Seq<u8>) -> Result<Seq<Seq<(u8, u8, u8)>>, Seq<char>>;

/// `image::load_from_memory` and `DynamicImage::into_rgb8`: the image's
/// rows of RGB pixels, each of the image's width, or the decoding error
/// written with `{:#?}`.
#[verifier::external_body]
fn decode_rgb(bytes: &[u8]) -> (r: Result<Vec<Vec<(u8, u8, u8)>>, String>)
    ensures
        match r {
            Ok(rows) => decoded_rgb(bytes@) == Ok::<Seq<Seq<(u8, u8, u8)>>, Seq<char>>(pixel_rows(rows@))
                && forall|y: int| 0 <= y < rows@.len() ==> #[trigger] rows@[y]@.len() == rows@[0]@.len(),
            Err(m) => decoded_rgb(bytes@) == Err::<Seq<Seq<(u8, u8, u8)>>, Seq<char>>(m@),
        },
{
    match image::load_from_memory(bytes) {
        Ok(img) => {
            let rgb = img.into_rgb8();
            let (w, h) = rgb.dimensions();
            Ok((0..h).map(|y| (0..w).map(|x| { let p = rgb.get_pixel(x, y); (p[0], p[1], p[2]) }).collect()).collect())
        },
        Err(e) => Err(format!("{:#?}", e)),
    }
}

proof fn lemma_row_sum_bound(row: Seq<(u8, u8, u8)>, c: int)
    ensures
        0 <= row_sum(row, c) <= 255 * row.len(),
    decreases row.len(),
{
    if row.len() > 0 {
        lemma_row_sum_bound(row.drop_last(), c);
    }
}

fn row_channel_sum(row: &Vec<(u8, u8, u8)>, c: usize) -> (s: u128)
    requires
        c < 3,
    ensures
        s == row_sum(row@, c as int),
{
    let mut s: u128 = 0;
    let mut x: usize = 0;
    assert(row@.take(0) =~= Seq::<(u8, u8, u8)>::empty());
    while x < row.len()
        invariant
            x <= row@.len(),
            c < 3,
            s == row_sum(row@.take(x as int), c as int),
            s <= 255 * x,
        decreases row@.len() - x,
    {
        proof {
            assert(row@.take(x + 1).drop_last() =~= row@.take(x as int));
            assert(row@.take(x + 1).last() == row@[x as int]);
        }
        let p = row[x];
        let v: u8 = if c == 0 { p.0 } else if c == 1 { p.1 } else { p.2 };
        s = s + v as u128;
        x = x + 1;
    }
    assert(row@.take(row@.len() as int) =~= row@);
    s
}

fn channel_mean(rows: &Vec<Vec<(u8, u8, u8)>>, c: usize, width: usize) -> (m: u128)
    requires
        c < 3,
        width > 0,
        rows@.len() > 0,
        forall|y: int| 0 <= y < rows@.len() ==> #[trigger] rows@[y]@.len() == width,
    ensures
        m == channel_average(rows@, c as int, width as int),
        m <= 255,
{
    let mut total: u128 = 0;
    let mut y: usize = 0;
    assert(rows@.take(0) =~= Seq::<Vec<(u8, u8, u8)>>::empty());
    while y < rows.len()
        invariant
            y <= rows@.len(),
            c < 3,
            width > 0,
            forall|j: int| 0 <= j < rows@.len() ==> #[trigger] rows@[j]@.len() == width,
            total == row_averages(rows@.take(y as int), c as int, width as int),
            total <= 255 * y,
        decreases rows@.len() - y,
    {
        let s = row_channel_sum(&rows[y], c);
        proof {
            let t = rows@.take(y + 1);
            assert(t.drop_last() =~= rows@.take(y as int));
            assert(t.last() == rows@[y as int]);
            lemma_row_sum_bound(rows@[y as int]@, c as int);
            let w = width as int;
            let sv = s as int;
            assert(sv / w <= 255) by (nonlinear_arith)
                requires
                    0 <= sv <= 255 * w,
                    w > 0,
            {}
        }
        total = total + s / (width as u128);
        y = y + 1;
    }
    assert(rows@.take(rows@.len() as int) =~= rows@);
    let h = rows.len() as u128;
    proof {
        let tv = total as int;
        let hv = rows@.len() as int;
        assert(tv / hv <= 255) by (nonlinear_arith)
            requires
                0 <= tv <= 255 * hv,
                hv > 0,
        {}
    }
    total / h
}

/// The average colour of an image given by rows of RGB pixels, as red, green
/// and blue: each channel's average over rows of the rows' averages. All rows
/// have the image's width, and the image is not empty.
pub fn average_colour(rows: &Vec<Vec<(u8, u8, u8)>>) -> (c: (u128, u128, u128))
    requires
        rows@.len() > 0,
        rows@[0]@.len() > 0,
        forall|y: int| 0 <= y < rows@.len() ==> #[trigger] rows@[y]@.len() == rows@[0]@.len(),
    ensures
        c.0 == channel_average(rows@, 0, rows@[0]@.len() as int),
        c.1 == channel_average(rows@, 1, rows@[0]@.len() as int),
        c.2 == channel_average(rows@, 2, rows@[0]@.len() as int),
        c.0 <= 255 && c.1 <= 255 && c.2 <= 255,
{
    let width = rows[0].len();
    (channel_mean(rows, 0, width), channel_mean(rows, 1, width), channel_mean(rows, 2, width))
}

/// Two lower-case hexadecimal digits of a byte.
pub open spec fn hex2(v: int) -> Seq<char> {
    seq![hex_lower_digit((v / 16) as nat), hex_lower_digit((v % 16) as nat)]
}

/// The colour as six lower-case hexadecimal digits, red first.
pub open spec fn hex_colour_spec(r: int, g: int, b: int) -> Seq<char> {
    hex2(r) + hex2(g) + hex2(b)
}

fn hex_digit(d: u128) -> (c: char)
    requires
        d < 16,
    ensures
        c == hex_lower_digit(d as nat),
{
    proof {
        reveal_with_fuel(crate::text::decimal, 1);
    }
    if d == 0 { '0' } else if d == 1 { '1' } else if d == 2 { '2' } else if d == 3 { '3' }
    else if d == 4 { '4' } else if d == 5 { '5' } else if d == 6 { '6' } else if d == 7 { '7' }
    else if d == 8 { '8' } else if d == 9 { '9' } else if d == 10 { 'a' } else if d == 11 { 'b' }
    else if d == 12 { 'c' } else if d == 13 { 'd' } else if d == 14 { 'e' } else { 'f' }
}

/// The colour written as six lower-case hexadecimal digits, as `{:#08x}`
/// writes `r << 16 | g << 8 | b` after its `0x`.
pub fn hex_colour(r: u128, g: u128, b: u128) -> (s: String)
    requires
        r <= 255 && g <= 255 && b <= 255,
    ensures
        s@ == hex_colour_spec(r as int, g as int, b as int),
        s@.len() == 6,
{
    let mut s = String::new();
    push_char(&mut s, hex_digit(r / 16));
    push_char(&mut s, hex_digit(r % 16));
    push_char(&mut s, hex_digit(g / 16));
    push_char(&mut s, hex_digit(g % 16));
    push_char(&mut s, hex_digit(b / 16));
    push_char(&mut s, hex_digit(b % 16));
    assert(s@ =~= hex_colour_spec(r as int, g as int, b as int));
    s
}

/// The average colour, in hexadecimal, of decoded rows of pixels that all
/// have one width: black when the rows hold no pixels.
pub fn colour_of_rows(rows: &Vec<Vec<(u8, u8, u8)>>) -> (s: String)
    requires
        rows@.len() > 0,
        forall|y: int| 0 <= y < rows@.len() ==> #[trigger] rows@[y]@.len() == rows@[0]@.len(),
    ensures
        s@ == image_colour(pixel_rows(rows@)),
{
    proof {
        assert(pixel_rows(rows@)[0] == rows@[0]@);
    }
    if rows[0].len() == 0 {
        hex_colour(0, 0, 0)
    } else {
        let (r, g, b) = average_colour(rows);
        proof {
            let w = rows@[0]@.len() as int;
            lemma_row_averages_pixels(rows@, 0, w);
            lemma_row_averages_pixels(rows@, 1, w);
            lemma_row_averages_pixels(rows@, 2, w);
        }
        hex_colour(r, g, b)
    }
}

/// The metadata of an image file shown as `path` and named `filename`, from
/// its XMP packet (`None` when the file has none), its creation time and the
/// file's bytes (or the message of the error that reading it gave). The
/// title defaults to the file name; the date is as `image_date` finds it; the
/// colour is the decoded image's average colour in hexadecimal. No
/// thumbnails yet. `None` when the image decodes to no rows at all, where no
/// average can be taken.
pub fn image_metadata(
    filename: &str,
    path: &str,
    xmp: Option<XmpFields>,
    created: &FileCreated,
    file: Result<Vec<u8>, String>,
) -> (r: Option<Result<ImageMetadata, ImageMetadataError>>)
    ensures
        match xmp {
            None => r matches Some(Err(e)) && e.error matches Some(s) && s@ == "No XMP in file "@ + path@ + "!"@,
            Some(x) => match image_date_spec(path@, x, *created) {
                Err(m) => r matches Some(Err(e)) && e.error matches Some(s) && s@ == m,
                Ok(t) => match file {
                    Err(m) => r matches Some(Err(e)) && e.error matches Some(s) && s@ == m@,
                    Ok(bytes) => match decoded_rgb(bytes@) {
                        Err(m) => r matches Some(Err(e)) && e.error matches Some(s) && s@ == m,
                        Ok(rows) => if rows.len() == 0 {
                            r is None
                        } else {
                            r matches Some(Ok(meta)) && {
                                &&& meta.name@ == (match x.title { Some(n) => n@, None => filename@ })
                                &&& meta.date.secs == t.0 && meta.date.nanos == t.1
                                &&& meta.colour@ == image_colour(rows)
                                &&& forall|s: crate::datamodel::datamodel::ThumbnailSize| meta.variants.entry(s) is None
                            }
                        },
                    },
                },
            },
        },
{
    let x = match xmp {
        None => {
            let mut s = String::new();
            push_str(&mut s, "No XMP in file ");
            push_str(&mut s, path);
            push_str(&mut s, "!");
            return Some(Err(ImageMetadataError::new(s)));
        },
        Some(x) => x,
    };
    let date = match image_date(path, &x, created) {
        Ok(d) => d,
        Err(e) => return Some(Err(e)),
    };
    let bytes = match file {
        Ok(b) => b,
        Err(m) => return Some(Err(ImageMetadataError::new(m))),
    };
    let rows = match decode_rgb(bytes.as_slice()) {
        Ok(rows) => rows,
        Err(m) => return Some(Err(ImageMetadataError::new(m))),
    };
    if rows.len() == 0 {
        return None;
    }
    let colour = colour_of_rows(&rows);
    let name = match x.title {
        Some(n) => n,
        None => filename.to_string(),
    };
    Some(Ok(ImageMetadata { name, date, colour, variants: BySize::new() }))
}

/// Why a site data file could not be registered.
#[derive(Debug)]
pub struct SiteDataConfigError {
    /// What went wrong.
    pub error: String,
}

impl SiteDataConfig {
    /// A site data file named `filename`, shown as `path`, if it could be
    /// opened.
    pub fn new(filename: &str, path: &str, opened: bool) -> (r: Result<SiteDataConfig, SiteDataConfigError>)
        ensures
            opened ==> (r matches Ok(c) && c.filename@ == filename@),
            !opened ==> (r matches Err(e) && e.error@ == "Failed to open resource file "@ + path@ + "!"@),
    {
        if opened {
            Ok(SiteDataConfig { filename: filename.to_string() })
        } else {
            let mut s = String::new();
            push_str(&mut s, "Failed to open resource file ");
            push_str(&mut s, path);
            push_str(&mut s, "!");
            Err(SiteDataConfigError { error: s })
        }
    }
}

} // verus!
