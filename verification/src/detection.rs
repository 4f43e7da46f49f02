//! What kind of file a buffer holds, and the structure that was parsed from
//! it according to that kind.

use vstd::prelude::*;
use vstd::string::StringExecFns;
use crate::cert::{cert_view, CertData};
use crate::png::PngData;
use crate::text::{lossy_utf8, reads};
use crate::xml::XmlData;

verus! {

/// What was detected about a buffer.
#[derive(Debug)]
pub struct FileInfoData {
    /// The broad category of the format.
    pub kind: String,
    /// The media type of the format.
    pub file_type: String,
    /// The usual file name extension of the format.
    pub extension: String,
    /// The full name of the format.
    pub name: String,
}

/// A `FileInfoData` as a mathematical value.
pub struct FileInfoView {
    pub kind: Seq<char>,
    pub file_type: Seq<char>,
    pub extension: Seq<char>,
    pub name: Seq<char>,
}

impl View for FileInfoData {
    type V = FileInfoView;

    open spec fn view(&self) -> FileInfoView {
        FileInfoView {
            kind: self.kind@,
            file_type: self.file_type@,
            extension: self.extension@,
            name: self.name@,
        }
    }
}

/// The format that `FileFormat::from_bytes` detects in a buffer, by its
/// kind, media type, extension and name.
pub uninterp spec fn detected_format(bytes: Seq<u8>) -> FileInfoView;

/// `FileFormat::from_bytes` detects the format of a buffer from its
/// signature. The result holds the kind, media type, extension and name of
/// that format and is determined by the bytes.
#[verifier::external_body]
pub(crate) fn detect_format(bytes: &[u8]) -> (info: FileInfoData)
    ensures
        info@ == detected_format(bytes@),
{
    let format = file_format::FileFormat::from_bytes(bytes);
    FileInfoData {
        kind: format!("{:?}", format.kind()),
        file_type: format.media_type().to_string(),
        extension: format.extension().to_string(),
        name: format.name().to_string(),
    }
}

/// The structure that was parsed from a buffer, by the kind of file.
#[derive(Debug)]
pub enum DetectionCache {
    /// The chunk table of a PNG container, if the buffer is one.
    Png(Option<PngData>),
    /// The text of an XML buffer.
    Xml(Option<XmlData>),
    /// The certificates of a buffer, if they could be read.
    Cert(Option<CertData>),
    /// Nothing was parsed.
    Empty,
}

impl DetectionCache {
    /// The cache holds what a buffer of the given extension parses to: the
    /// chunk table for `png`, the text for `xml`, the certificates of a PEM
    /// buffer for `crt` and of a DER buffer for `der`, nothing for any other.
    pub open spec fn holds(self, bytes: Seq<u8>, extension: Seq<char>) -> bool {
        if extension == "png"@ {
            &&& self is Png
            &&& match self->Png_0 {
                Some(data) => crate::png::parse_spec(bytes) == Some(data.chunks@)
                    && data.signature@ == crate::hex::encode_hex_spaced_spec(
                    crate::png::signature_spec(),
                ),
                None => crate::png::parse_spec(bytes) is None,
            }
        } else if extension == "xml"@ {
            &&& self is Xml
            &&& self->Xml_0 is Some
            &&& self->Xml_0->Some_0.inner@ == lossy_utf8(bytes)
        } else if extension == "crt"@ {
            &&& self is Cert
            &&& cert_view(self->Cert_0) == crate::cert::parse_spec(bytes, false)
        } else if extension == "der"@ {
            &&& self is Cert
            &&& cert_view(self->Cert_0) == crate::cert::parse_spec(bytes, true)
        } else {
            self is Empty
        }
    }

    /// Whether nothing was parsed.
    pub fn is_empty(&self) -> (r: bool)
        ensures
            r == (self is Empty),
    {
        match self {
            DetectionCache::Empty => true,
            _ => false,
        }
    }

    /// parse to create cache
    ///
    /// Parses `binary_data` according to the extension in `file_info`.
    pub fn parse(binary_data: &[u8], file_info: &FileInfoData) -> (cache: DetectionCache)
        ensures
            cache.holds(binary_data@, file_info.extension@),
    {
        if reads(&file_info.extension, "png") {
            DetectionCache::Png(PngData::parse(binary_data))
        } else if reads(&file_info.extension, "xml") {
            DetectionCache::Xml(Some(XmlData::parse(binary_data)))
        } else if reads(&file_info.extension, "crt") {
            DetectionCache::Cert(CertData::parse(binary_data, false))
        } else if reads(&file_info.extension, "der") {
            DetectionCache::Cert(CertData::parse(binary_data, true))
        } else {
            DetectionCache::Empty
        }
    }
}

/// The detection window: whether it is shown, and what was parsed.
#[derive(Debug)]
pub struct Detection {
    /// Whether the window is shown.
    pub is_open: bool,
    /// What was parsed, until the buffer changes.
    pub cache: DetectionCache,
}

impl Detection {
    /// The cache is empty or holds what `bytes` parse to.
    pub open spec fn fresh_for(self, bytes: Seq<u8>, extension: Seq<char>) -> bool {
        self.cache is Empty || self.cache.holds(bytes, extension)
    }

    /// A closed window with nothing parsed.
    pub fn new() -> (detection: Self)
        ensures
            !detection.is_open,
            detection.cache is Empty,
    {
        Detection { is_open: false, cache: DetectionCache::Empty }
    }

    /// Drops what was parsed, so that the next buffer is parsed anew.
    pub fn reset(&mut self)
        ensures
            final(self).cache is Empty,
            final(self).is_open == old(self).is_open,
    {
        self.cache = DetectionCache::Empty;
    }

    /// Parses `binary_data` if the window is shown and nothing was parsed
    /// yet.
    pub fn prepare(&mut self, binary_data: &[u8], file_info: &FileInfoData)
        requires
            old(self).fresh_for(binary_data@, file_info.extension@),
        ensures
            final(self).is_open == old(self).is_open,
            old(self).is_open ==> final(self).cache.holds(binary_data@, file_info.extension@),
            !old(self).is_open ==> final(self).cache == old(self).cache,
            final(self).fresh_for(binary_data@, file_info.extension@),
    {
        if self.is_open && self.cache.is_empty() {
            self.cache = DetectionCache::parse(binary_data, file_info);
        }
    }
}

} // verus!
