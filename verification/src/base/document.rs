use vstd::prelude::*;
use std::collections::HashMap;
use std::time::SystemTime;
use crate::text::str_eq;

verus! {

/// Color space of a document.
#[derive(Debug, Clone, PartialEq)]
pub enum ColorSpace {
    SRGB,
    AdobeRGB,
    ProPhotoRGB,
    CMYK,
    Grayscale,
    LAB,
    HSL,
    HDR,
    Custom(String),
}

/// The name under which a color space is shown.
pub open spec fn color_space_name(c: ColorSpace) -> Seq<char> {
    match c {
        ColorSpace::SRGB => "sRGB"@,
        ColorSpace::AdobeRGB => "Adobe RGB"@,
        ColorSpace::ProPhotoRGB => "ProPhoto RGB"@,
        ColorSpace::CMYK => "CMYK"@,
        ColorSpace::Grayscale => "Grayscale"@,
        ColorSpace::LAB => "LAB"@,
        ColorSpace::HSL => "HSL"@,
        ColorSpace::HDR => "HDR"@,
        ColorSpace::Custom(name) => name@,
    }
}

impl ColorSpace {
    /// The name under which this color space is shown; a custom space shows its own name.
    pub fn to_string(&self) -> (r: String)
        ensures
            r@ == color_space_name(*self),
    {
        match self {
            ColorSpace::SRGB => "sRGB".to_string(),
            ColorSpace::AdobeRGB => "Adobe RGB".to_string(),
            ColorSpace::ProPhotoRGB => "ProPhoto RGB".to_string(),
            ColorSpace::CMYK => "CMYK".to_string(),
            ColorSpace::Grayscale => "Grayscale".to_string(),
            ColorSpace::LAB => "LAB".to_string(),
            ColorSpace::HSL => "HSL".to_string(),
            ColorSpace::HDR => "HDR".to_string(),
            ColorSpace::Custom(name) => name.clone(),
        }
    }
}

/// Bits per channel.
#[derive(Debug, Clone, Copy, PartialEq, Eq, Structural)]
pub enum BitDepth {
    Bit8,
    Bit16,
    Bit32,
}

/// The name under which a bit depth is shown.
pub open spec fn bit_depth_name(b: BitDepth) -> Seq<char> {
    match b {
        BitDepth::Bit8 => "8-bit"@,
        BitDepth::Bit16 => "16-bit"@,
        BitDepth::Bit32 => "32-bit"@,
    }
}

impl BitDepth {
    /// The name under which this bit depth is shown.
    pub fn to_string(&self) -> (r: String)
        ensures
            r@ == bit_depth_name(*self),
    {
        match self {
            BitDepth::Bit8 => "8-bit".to_string(),
            BitDepth::Bit16 => "16-bit".to_string(),
            BitDepth::Bit32 => "32-bit".to_string(),
        }
    }
}

/// Represents the format of a document
#[derive(Debug, Clone, Copy, PartialEq, Eq, Hash, Structural)]
pub enum DocumentFormat {
    /// JPEG format
    JPEG,
    /// PNG format
    PNG,
    /// TIFF format
    TIFF,
    /// WebP format
    WebP,
    /// Affinity Photo document
    AffinityPhoto,
    /// Custom native format for this editor
    Native,
}

/// The format that a lowercase file extension names, if any.
pub open spec fn format_for_extension(ext: Seq<char>) -> Option<DocumentFormat> {
    if ext == "jpg"@ || ext == "jpeg"@ {
        Some(DocumentFormat::JPEG)
    } else if ext == "png"@ {
        Some(DocumentFormat::PNG)
    } else if ext == "tif"@ || ext == "tiff"@ {
        Some(DocumentFormat::TIFF)
    } else if ext == "webp"@ {
        Some(DocumentFormat::WebP)
    } else if ext == "afphoto"@ {
        Some(DocumentFormat::AffinityPhoto)
    } else if ext == "aprs"@ {
        Some(DocumentFormat::Native)
    } else {
        None
    }
}

/// The extension under which a format is written.
pub open spec fn extension_of(f: DocumentFormat) -> Seq<char> {
    match f {
        DocumentFormat::JPEG => "jpg"@,
        DocumentFormat::PNG => "png"@,
        DocumentFormat::TIFF => "tiff"@,
        DocumentFormat::WebP => "webp"@,
        DocumentFormat::AffinityPhoto => "afphoto"@,
        DocumentFormat::Native => "aprs"@,
    }
}

/// What `str::to_lowercase` gives for a string (its lowercase form by the Unicode
/// case tables of the standard library).
pub uninterp spec fn lowercase(s: Seq<char>) -> Seq<char>;

/// `c` with an ASCII capital letter mapped to its small letter.
pub open spec fn ascii_lower(c: char) -> char {
    if 'A' <= c <= 'Z' {
        ((c as int) + 32) as char
    } else {
        c
    }
}

/// Whether every character of `s` is ASCII.
pub open spec fn ascii_text(s: Seq<char>) -> bool {
    forall|i: int| 0 <= i < s.len() ==> (#[trigger] s[i] as int) < 128
}

/// `s` with each ASCII capital letter made small.
pub open spec fn ascii_lowered(s: Seq<char>) -> Seq<char> {
    s.map_values(|c: char| ascii_lower(c))
}

/// `c` with an ASCII small letter mapped to its capital letter.
pub open spec fn ascii_upper(c: char) -> char {
    if 'a' <= c <= 'z' {
        ((c as int) - 32) as char
    } else {
        c
    }
}

/// `s` with each ASCII small letter made a capital.
pub open spec fn ascii_uppered(s: Seq<char>) -> Seq<char> {
    s.map_values(|c: char| ascii_upper(c))
}

/// Calls `str::to_lowercase`; the result is `lowercase` of the argument. For a
/// string of ASCII characters that is, as the standard library documents, the
/// string with each capital letter made small; beyond ASCII nothing more of the
/// mapping is stated.
#[verifier::external_body]
fn to_lowercase(s: &str) -> (r: String)
    ensures
        r@ == lowercase(s@),
        ascii_text(s@) ==> r@ == ascii_lowered(s@),
{
    s.to_lowercase()
}

impl DocumentFormat {
    /// Convert a file extension to a format, ignoring case.
    pub fn from_extension(extension: &str) -> (r: Option<Self>)
        ensures
            r == format_for_extension(lowercase(extension@)),
            ascii_text(extension@) ==> r == format_for_extension(ascii_lowered(extension@)),
    {
        let lowered = to_lowercase(extension);
        Self::from_lowercase_extension(lowered.as_str())
    }

    /// The format that an already lowercase extension names, if any.
    pub fn from_lowercase_extension(extension: &str) -> (r: Option<Self>)
        ensures
            r == format_for_extension(extension@),
    {
        if str_eq(extension, "jpg") || str_eq(extension, "jpeg") {
            Some(DocumentFormat::JPEG)
        } else if str_eq(extension, "png") {
            Some(DocumentFormat::PNG)
        } else if str_eq(extension, "tif") || str_eq(extension, "tiff") {
            Some(DocumentFormat::TIFF)
        } else if str_eq(extension, "webp") {
            Some(DocumentFormat::WebP)
        } else if str_eq(extension, "afphoto") {
            Some(DocumentFormat::AffinityPhoto)
        } else if str_eq(extension, "aprs") {
            Some(DocumentFormat::Native)
        } else {
            None
        }
    }

    /// Convert a format to a file extension
    pub fn to_extension(&self) -> (r: &'static str)
        ensures
            r@ == extension_of(*self),
    {
        match self {
            DocumentFormat::JPEG => "jpg",
            DocumentFormat::PNG => "png",
            DocumentFormat::TIFF => "tiff",
            DocumentFormat::WebP => "webp",
            DocumentFormat::AffinityPhoto => "afphoto",
            DocumentFormat::Native => "aprs",
        }
    }
}

/// The format a file extension (ignoring case) names, or `fallback` when there is
/// no extension or it names none.
pub open spec fn format_or(ext: Option<Seq<char>>, fallback: DocumentFormat) -> DocumentFormat {
    match ext {
        Some(e) => match format_for_extension(lowercase(e)) {
            Some(f) => f,
            None => fallback,
        },
        None => fallback,
    }
}

/// The format for a file with the given extension (if any): the one the extension
/// names, ignoring case, or `fallback`.
pub fn format_from_extension_or(extension: Option<&str>, fallback: DocumentFormat) -> (r: DocumentFormat)
    ensures
        r == format_or(
            match extension {
                Some(e) => Some(e@),
                None => None,
            },
            fallback,
        ),
        extension matches Some(e) ==> (ascii_text(e@) ==> r == match format_for_extension(
            ascii_lowered(e@),
        ) {
            Some(f) => f,
            None => fallback,
        }),
{
    match extension {
        Some(e) => match DocumentFormat::from_extension(e) {
            Some(f) => f,
            None => fallback,
        },
        None => fallback,
    }
}

/// The title of a document opened from a file: the file's name, or "Untitled"
/// when there is none.
pub fn title_from_file_name(file_name: Option<&str>) -> (r: String)
    ensures
        r@ == match file_name {
            Some(n) => n@,
            None => "Untitled"@,
        },
{
    match file_name {
        Some(n) => n.to_string(),
        None => "Untitled".to_string(),
    }
}

/// The image encodings a document can be saved in.
#[derive(Debug, Clone, Copy, PartialEq, Eq, Structural)]
pub enum SaveEncoding {
    Jpeg,
    Png,
    Tiff,
    WebP,
}

/// The encoding a document in `format` is saved with; the Affinity Photo and
/// native formats cannot be written yet.
pub fn save_encoding(format: DocumentFormat) -> (r: Result<SaveEncoding, String>)
    ensures
        format == DocumentFormat::JPEG ==> r == Ok::<SaveEncoding, String>(SaveEncoding::Jpeg),
        format == DocumentFormat::PNG ==> r == Ok::<SaveEncoding, String>(SaveEncoding::Png),
        format == DocumentFormat::TIFF ==> r == Ok::<SaveEncoding, String>(SaveEncoding::Tiff),
        format == DocumentFormat::WebP ==> r == Ok::<SaveEncoding, String>(SaveEncoding::WebP),
        (format == DocumentFormat::AffinityPhoto || format == DocumentFormat::Native) ==> (r matches Err(e)
            && e@ == "Saving in native format not yet implemented"@),
{
    match format {
        DocumentFormat::JPEG => Ok(SaveEncoding::Jpeg),
        DocumentFormat::PNG => Ok(SaveEncoding::Png),
        DocumentFormat::TIFF => Ok(SaveEncoding::Tiff),
        DocumentFormat::WebP => Ok(SaveEncoding::WebP),
        DocumentFormat::AffinityPhoto | DocumentFormat::Native => Err(
            "Saving in native format not yet implemented".to_string(),
        ),
    }
}

/// An extension written in capitals names the same format: every format's
/// extension is ASCII text, stays ASCII in capitals, and lowering the capitals
/// gives the extension back, which names the format.
pub proof fn lemma_extension_round_trip_upper(f: DocumentFormat)
    ensures
        ascii_text(ascii_uppered(extension_of(f))),
        ascii_lowered(ascii_uppered(extension_of(f))) == extension_of(f),
        format_for_extension(ascii_lowered(ascii_uppered(extension_of(f)))) == Some(f),
{
    lemma_extension_round_trip(f);
    reveal_strlit("jpg");
    reveal_strlit("png");
    reveal_strlit("tiff");
    reveal_strlit("webp");
    reveal_strlit("afphoto");
    reveal_strlit("aprs");
    let e = extension_of(f);
    assert forall|i: int| 0 <= i < e.len() implies 'a' <= #[trigger] e[i] <= 'z' by {}
    assert(ascii_lowered(ascii_uppered(e)) =~= e);
}

/// The extension a format is written under names that format again.
pub proof fn lemma_extension_round_trip(f: DocumentFormat)
    ensures
        format_for_extension(extension_of(f)) == Some(f),
{
    reveal_strlit("jpg");
    reveal_strlit("jpeg");
    reveal_strlit("png");
    reveal_strlit("tif");
    reveal_strlit("tiff");
    reveal_strlit("webp");
    reveal_strlit("afphoto");
    reveal_strlit("aprs");
    let e = extension_of(f);
    assert(e.len() == 3 ==> e != "jpeg"@ && e != "tiff"@ && e != "webp"@ && e != "afphoto"@
        && e != "aprs"@);
    assert("png"@ != "jpg"@ && "png"@ != "tif"@) by {
        assert("png"@[0] != "jpg"@[0]);
        assert("png"@[0] != "tif"@[0]);
    }
    assert("tiff"@ != "jpeg"@ && "tiff"@ != "webp"@ && "tiff"@ != "aprs"@) by {
        assert("tiff"@[0] != "jpeg"@[0]);
        assert("tiff"@[0] != "webp"@[0]);
        assert("tiff"@[0] != "aprs"@[0]);
    }
    assert("webp"@ != "jpeg"@ && "webp"@ != "aprs"@) by {
        assert("webp"@[0] != "jpeg"@[0]);
        assert("webp"@[0] != "aprs"@[0]);
    }
    assert("aprs"@ != "jpeg"@) by {
        assert("aprs"@[0] != "jpeg"@[0]);
    }
}

#[verifier::external_type_specification]
#[verifier::external_body]
pub struct ExSystemTime(SystemTime);

/// `SystemTime` is `Copy`, and its `clone` returns the same instant.
pub assume_specification[ <SystemTime as Clone>::clone ](t: &SystemTime) -> (r: SystemTime)
    ensures
        r == *t,
;

/// Reads the system clock with `SystemTime::now`; nothing is stated of the time.
#[verifier::external_body]
fn system_time_now() -> SystemTime {
    SystemTime::now()
}

/// Metadata for a document
#[derive(Debug, Clone, PartialEq)]
pub struct DocumentMetadata {
    /// Title of the document
    pub title: String,
    /// Author of the document
    pub author: Option<String>,
    /// Description of the document
    pub description: Option<String>,
    /// Copyright information
    pub copyright: Option<String>,
    /// Keywords/tags
    pub keywords: Vec<String>,
    /// Creation time
    pub creation_time: SystemTime,
    /// Last modification time
    pub modification_time: SystemTime,
    /// Custom metadata
    pub custom: HashMap<String, String>,
}

impl Default for DocumentMetadata {
    /// An untitled document with no author, description, copyright, keywords or
    /// custom entries, created and modified now.
    fn default() -> (r: Self)
        ensures
            r.title@ == "Untitled"@,
            r.author is None,
            r.description is None,
            r.copyright is None,
            r.keywords@.len() == 0,
            r.custom@ == Map::<String, String>::empty(),
    {
        Self {
            title: "Untitled".to_string(),
            author: None,
            description: None,
            copyright: None,
            keywords: Vec::new(),
            creation_time: system_time_now(),
            modification_time: system_time_now(),
            custom: HashMap::new(),
        }
    }
}

} // verus!
