//! Certificates in a buffer: the blocks of a PEM file, or the certificates
//! of a DER file one after the other.

use vstd::prelude::*;
use vstd::slice::{slice_subrange, slice_to_vec};
use vstd::string::StringExecFns;
use x509_parser::prelude::FromDer;
use crate::hex::{encode_hex, encode_hex_spec};

verus! {

/// One certificate: its label and its DER bytes.
#[derive(Debug)]
pub struct Pem {
    /// The label of the block.
    pub label: String,
    /// The bytes of the block.
    pub contents: Vec<u8>,
}

/// A `Pem` as a mathematical value.
pub struct PemView {
    pub label: Seq<char>,
    pub contents: Seq<u8>,
}

impl View for Pem {
    type V = PemView;

    open spec fn view(&self) -> PemView {
        PemView { label: self.label@, contents: self.contents@ }
    }
}

/// The certificates of a buffer.
#[derive(Debug)]
pub struct CertData {
    /// The certificates in their order.
    pub pems: Vec<Pem>,
}

impl View for CertData {
    type V = Seq<PemView>;

    open spec fn view(&self) -> Seq<PemView> {
        Seq::new(self.pems@.len(), |i: int| self.pems@[i]@)
    }
}

/// The view of an optional list of certificates.
pub open spec fn cert_view(data: Option<CertData>) -> Option<Seq<PemView>> {
    match data {
        Some(d) => Some(d@),
        None => None,
    }
}

/// The time for which a certificate is valid.
#[derive(Debug)]
pub struct Validity {
    /// Start of the validity, as a date.
    pub not_before: String,
    /// End of the validity, as a date.
    pub not_after: String,
    /// Start of the validity, in nanoseconds since 1970.
    pub valid_from: i128,
    /// Whether the start of the validity is written as a generalized time.
    pub from_generalized: bool,
    /// End of the validity, in nanoseconds since 1970.
    pub valid_until: i128,
    /// Whether the end of the validity is written as a generalized time.
    pub until_generalized: bool,
}

/// A `Validity` as a mathematical value.
pub struct ValidityView {
    pub not_before: Seq<char>,
    pub not_after: Seq<char>,
    pub valid_from: i128,
    pub from_generalized: bool,
    pub valid_until: i128,
    pub until_generalized: bool,
}

impl View for Validity {
    type V = ValidityView;

    open spec fn view(&self) -> ValidityView {
        ValidityView {
            not_before: self.not_before@,
            not_after: self.not_after@,
            valid_from: self.valid_from,
            from_generalized: self.from_generalized,
            valid_until: self.valid_until,
            until_generalized: self.until_generalized,
        }
    }
}

/// What the DER form of a certificate tells at once: how many bytes it
/// takes, and for which time it is valid.
#[derive(Debug)]
pub struct DerCertificate {
    /// Number of bytes of the certificate.
    pub len: usize,
    /// The time for which the certificate is valid.
    pub validity: Validity,
}

/// A `DerCertificate` as a mathematical value.
pub struct DerCertificateView {
    pub len: usize,
    pub validity: ValidityView,
}

impl View for DerCertificate {
    type V = DerCertificateView;

    open spec fn view(&self) -> DerCertificateView {
        DerCertificateView { len: self.len, validity: self.validity@ }
    }
}

/// The view of an optional `DerCertificate`.
pub open spec fn der_view(der: Option<DerCertificate>) -> Option<DerCertificateView> {
    match der {
        Some(d) => Some(d@),
        None => None,
    }
}

/// The DER certificate that `bytes` start with, as
/// `X509Certificate::from_der` reads it; none where it reads no certificate.
pub uninterp spec fn der_certificate(bytes: Seq<u8>) -> Option<DerCertificateView>;

/// Length of the DER certificate that `bytes` start with.
pub open spec fn der_certificate_len(bytes: Seq<u8>) -> Option<usize> {
    match der_certificate(bytes) {
        Some(der) => Some(der.len),
        None => None,
    }
}

/// The blocks of a PEM buffer, as `Pem::iter_from_buffer` yields them; none
/// where one of them is malformed.
pub uninterp spec fn pem_blocks(bytes: Seq<u8>) -> Option<Seq<PemView>>;

/// `X509Certificate::from_der` parses one certificate from the front of the
/// bytes. The result holds the length of what it parsed, which `as_raw`
/// hands out, and the bounds of the validity, each as the date that it
/// displays as, as a point in time and with its kind of time; it is
/// determined by the bytes.
#[verifier::external_body]
pub(crate) fn read_der_certificate(bytes: &[u8]) -> (der: Option<DerCertificate>)
    ensures
        der_view(der) == der_certificate(bytes@),
{
    let (_, cert) = x509_parser::certificate::X509Certificate::from_der(bytes).ok()?;
    let (from, until) = (cert.validity.not_before, cert.validity.not_after);
    Some(DerCertificate {
        len: cert.as_raw().len(),
        validity: Validity {
            not_before: from.to_string(),
            not_after: until.to_string(),
            valid_from: from.to_datetime().unix_timestamp_nanos(),
            from_generalized: from.is_generalizedtime(),
            valid_until: until.to_datetime().unix_timestamp_nanos(),
            until_generalized: until.is_generalizedtime(),
        },
    })
}

/// `Pem::iter_from_buffer` walks the blocks of a PEM buffer. The result is
/// the label and the decoded contents of each block, or nothing if a block
/// fails to parse, and is determined by the bytes.
#[verifier::external_body]
pub(crate) fn read_pem_blocks(bytes: &[u8]) -> (blocks: Option<Vec<Pem>>)
    ensures
        match blocks {
            Some(list) => pem_blocks(bytes@) == Some(Seq::new(list@.len(), |i: int| list@[i]@)),
            None => pem_blocks(bytes@) is None,
        },
{
    x509_parser::pem::Pem::iter_from_buffer(bytes)
        .map(|block| block.map(|pem| Pem { label: pem.label, contents: pem.contents }))
        .collect::<Result<Vec<Pem>, x509_parser::error::PEMError>>()
        .ok()
}

/// The label that every certificate of a DER buffer gets.
pub open spec fn der_label() -> Seq<char> {
    "CERTIFICATE"@
}

/// The certificate that starts at `offset`, given the length that was read
/// for it: nothing if no length was read, or if the length is zero or
/// reaches past the end.
pub open spec fn certificate_at(bytes: Seq<u8>, offset: int, len: Option<usize>) -> Option<
    PemView,
> {
    match len {
        Some(n) => if 0 < n && offset + n <= bytes.len() {
            Some(PemView { label: der_label(), contents: bytes.subrange(offset, offset + n) })
        } else {
            None
        },
        None => None,
    }
}

/// The certificates of a DER buffer from `offset` on, one after the other
/// until the buffer ends; nothing if what follows one of them is no
/// certificate.
pub open spec fn der_certificates_from(bytes: Seq<u8>, offset: int) -> Option<Seq<PemView>>
    decreases bytes.len() - offset,
{
    if offset < 0 || offset >= bytes.len() {
        Some(Seq::empty())
    } else {
        match certificate_at(bytes, offset, der_certificate_len(bytes.skip(offset))) {
            Some(first) => match der_certificates_from(bytes, offset + first.contents.len()) {
                Some(rest) => Some(seq![first] + rest),
                None => None,
            },
            None => None,
        }
    }
}

/// The certificates of a buffer: those of a DER buffer, or the blocks of a
/// PEM buffer.
pub open spec fn parse_spec(bytes: Seq<u8>, is_der: bool) -> Option<Seq<PemView>> {
    if is_der {
        der_certificates_from(bytes, 0)
    } else {
        pem_blocks(bytes)
    }
}

/// Cuts the `len` bytes from `offset` on out of `bytes` as a certificate.
pub fn cut_certificate(bytes: &[u8], offset: usize, len: usize) -> (pem: Pem)
    requires
        offset + len <= bytes@.len(),
    ensures
        pem@ == (PemView {
            label: der_label(),
            contents: bytes@.subrange(offset as int, offset + len),
        }),
{
    assert(bytes@.len() == bytes.len());
    let contents = slice_to_vec(slice_subrange(bytes, offset, offset + len));
    Pem { label: String::from_str("CERTIFICATE"), contents }
}

/// Cuts the certificate that starts at `offset` out of `bytes`, given the
/// length that was read for it; gives nothing if no length was read, or if
/// the length is zero or reaches past the end.
pub fn take_certificate(bytes: &[u8], offset: usize, len: Option<usize>) -> (pem: Option<Pem>)
    requires
        offset <= bytes@.len(),
    ensures
        match pem {
            Some(p) => certificate_at(bytes@, offset as int, len) == Some(p@),
            None => certificate_at(bytes@, offset as int, len) is None,
        },
{
    match len {
        Some(n) => {
            if 0 < n && n <= bytes.len() - offset {
                Some(cut_certificate(bytes, offset, n))
            } else {
                None
            }
        },
        None => None,
    }
}

impl CertData {
    /// Reads the certificates of `binary_data`: those of a DER buffer one
    /// after the other, or the blocks of a PEM buffer.
    pub fn parse(binary_data: &[u8], is_der: bool) -> (parsed: Option<Self>)
        ensures
            cert_view(parsed) == parse_spec(binary_data@, is_der),
    {
        if !is_der {
            return match read_pem_blocks(binary_data) {
                Some(pems) => {
                    let data = CertData { pems };
                    assert(data@ =~= pem_blocks(binary_data@)->Some_0);
                    Some(data)
                },
                None => None,
            };
        }
        let mut pems: Vec<Pem> = Vec::new();
        let mut offset: usize = 0;
        while offset < binary_data.len()
            invariant
                is_der,
                offset <= binary_data.len(),
                match der_certificates_from(binary_data@, offset as int) {
                    Some(rest) => der_certificates_from(binary_data@, 0) == Some(
                        Seq::new(pems@.len(), |i: int| pems@[i]@) + rest,
                    ),
                    None => der_certificates_from(binary_data@, 0) is None,
                },
            decreases binary_data.len() - offset,
        {
            let reader = slice_subrange(binary_data, offset, binary_data.len());
            assert(reader@ =~= binary_data@.skip(offset as int));
            let len = match read_der_certificate(reader) {
                Some(der) => Some(der.len),
                None => None,
            };
            match take_certificate(binary_data, offset, len) {
                Some(pem) => {
                    let ghost before = Seq::new(pems@.len(), |i: int| pems@[i]@);
                    let ghost first = pem@;
                    offset += pem.contents.len();
                    pems.push(pem);
                    proof {
                        let after = Seq::new(pems@.len(), |i: int| pems@[i]@);
                        assert(after =~= before.push(first));
                        if let Some(rest) = der_certificates_from(binary_data@, offset as int) {
                            assert(before + (seq![first] + rest) =~= after + rest);
                        }
                    }
                },
                None => {
                    return None;
                },
            }
        }
        let data = CertData { pems };
        assert(data@ + Seq::<PemView>::empty() =~= data@);
        Some(data)
    }

    /// Number of certificates.
    pub fn len(&self) -> (count: usize)
        ensures
            count == self@.len(),
    {
        self.pems.len()
    }
}

/// Number of hexadecimal digits of a public key that are shown.
pub const KEY_DIGITS_SHOWN: usize = 20;

/// The shortened hexadecimal text of a public key: the text itself up to
/// twenty digits, else its first twenty digits and three dots.
pub open spec fn key_label_spec(key: Seq<u8>) -> Seq<char> {
    if encode_hex_spec(key).len() > KEY_DIGITS_SHOWN {
        encode_hex_spec(key).take(KEY_DIGITS_SHOWN as int) + seq!['.', '.', '.']
    } else {
        encode_hex_spec(key)
    }
}

/// The hexadecimal text of a public key, in full and shortened for display.
pub fn key_labels(key: &[u8]) -> (labels: (String, String))
    ensures
        labels.0@ == encode_hex_spec(key@),
        labels.1@ == key_label_spec(key@),
{
    let full = encode_hex(key);
    let shown = if key.len() > KEY_DIGITS_SHOWN / 2 {
        let head = slice_subrange(key, 0, KEY_DIGITS_SHOWN / 2);
        let mut shown = encode_hex(head);
        assert(shown@ =~= encode_hex_spec(key@).take(KEY_DIGITS_SHOWN as int));
        shown.push('.');
        shown.push('.');
        shown.push('.');
        assert(shown@ =~= key_label_spec(key@));
        shown
    } else {
        encode_hex(key)
    };
    (full, shown)
}

/// The fields of a certificate that are shown as they are.
#[derive(Debug)]
pub struct CertTexts {
    /// The version of the certificate.
    pub version: String,
    /// The serial number.
    pub serial: String,
    /// The algorithm of the signature.
    pub signature_algorithm: String,
    /// The issuer.
    pub issuer: String,
    /// The subject.
    pub subject: String,
    /// The bytes of the subject's public key.
    pub public_key: Vec<u8>,
    /// The algorithm of the subject's public key.
    pub public_key_algorithm: String,
}

/// A `CertTexts` as a mathematical value.
pub struct CertTextsView {
    pub version: Seq<char>,
    pub serial: Seq<char>,
    pub signature_algorithm: Seq<char>,
    pub issuer: Seq<char>,
    pub subject: Seq<char>,
    pub public_key: Seq<u8>,
    pub public_key_algorithm: Seq<char>,
}

impl View for CertTexts {
    type V = CertTextsView;

    open spec fn view(&self) -> CertTextsView {
        CertTextsView {
            version: self.version@,
            serial: self.serial@,
            signature_algorithm: self.signature_algorithm@,
            issuer: self.issuer@,
            subject: self.subject@,
            public_key: self.public_key@,
            public_key_algorithm: self.public_key_algorithm@,
        }
    }
}

/// The view of optional `CertTexts`.
pub open spec fn texts_view(texts: Option<CertTexts>) -> Option<CertTextsView> {
    match texts {
        Some(t) => Some(t@),
        None => None,
    }
}

/// What `Pem::parse_x509` reads from a block with the given contents; none
/// where it reads no certificate.
pub uninterp spec fn x509_certificate(contents: Seq<u8>) -> Option<CertTextsView>;

/// `Pem::parse_x509` parses the contents of a block as a certificate. The
/// result holds the fields of that certificate that are shown as they are,
/// each as the text that it displays as, and is determined by the contents.
#[verifier::external_body]
pub(crate) fn read_certificate(contents: &[u8]) -> (texts: Option<CertTexts>)
    ensures
        texts_view(texts) == x509_certificate(contents@),
{
    let pem = x509_parser::pem::Pem { label: String::new(), contents: contents.to_vec() };
    let x509 = pem.parse_x509().ok()?;
    Some(CertTexts {
        version: x509.version().to_string(),
        serial: x509.serial.to_string(),
        signature_algorithm: x509.signature_algorithm.algorithm.to_string(),
        issuer: x509.issuer().to_string(),
        subject: x509.subject().to_string(),
        public_key: x509.public_key().subject_public_key.data.to_vec(),
        public_key_algorithm: x509.public_key().algorithm.algorithm.to_string(),
    })
}

/// What is shown of one certificate.
#[derive(Debug)]
pub struct CertInfo {
    /// The fields that are shown as they are.
    pub texts: CertTexts,
    /// The time for which the certificate is valid.
    pub validity: Validity,
}

/// A `CertInfo` as a mathematical value.
pub struct CertInfoView {
    pub texts: CertTextsView,
    pub validity: ValidityView,
}

impl View for CertInfo {
    type V = CertInfoView;

    open spec fn view(&self) -> CertInfoView {
        CertInfoView { texts: self.texts@, validity: self.validity@ }
    }
}

/// The view of an optional `CertInfo`.
pub open spec fn info_view(info: Option<CertInfo>) -> Option<CertInfoView> {
    match info {
        Some(i) => Some(i@),
        None => None,
    }
}

/// What is shown of a certificate, given what was read of it as a block and
/// in its DER form: nothing unless both were read.
pub open spec fn info_of(
    texts: Option<CertTextsView>,
    der: Option<DerCertificateView>,
) -> Option<CertInfoView> {
    match (texts, der) {
        (Some(t), Some(d)) => Some(CertInfoView { texts: t, validity: d.validity }),
        _ => None,
    }
}

/// Puts together what is shown of a certificate from what was read of it.
pub fn certificate_info(texts: Option<CertTexts>, der: Option<DerCertificate>) -> (info: Option<
    CertInfo,
>)
    ensures
        info_view(info) == info_of(texts_view(texts), der_view(der)),
{
    match (texts, der) {
        (Some(t), Some(d)) => Some(CertInfo { texts: t, validity: d.validity }),
        _ => None,
    }
}

/// What is shown of the certificates in `pems` from position `at` on: one
/// entry for each that parses, in their order.
pub open spec fn details_from(pems: Seq<PemView>, at: int) -> Seq<CertInfoView>
    decreases pems.len() - at,
{
    if at < 0 || at >= pems.len() {
        Seq::empty()
    } else {
        match info_of(x509_certificate(pems[at].contents), der_certificate(pems[at].contents)) {
            Some(info) => seq![info] + details_from(pems, at + 1),
            None => details_from(pems, at + 1),
        }
    }
}

/// The first instant of the year 2050, in nanoseconds since 1970. A present
/// time counts as a generalized time from then on.
pub const START_OF_2050: i128 = 2_524_608_000_000_000_000;

/// A time comes before another, or is the same: the earlier instant comes
/// first, and of two times at the same instant the one that is no
/// generalized time.
pub open spec fn time_le(a: i128, a_generalized: bool, b: i128, b_generalized: bool) -> bool {
    a < b || (a == b && (!a_generalized || b_generalized))
}

impl Validity {
    /// Whether the time `now` lies within the validity, its bounds included.
    pub open spec fn valid_at(self, now: i128, generalized: bool) -> bool {
        &&& time_le(self.valid_from, self.from_generalized, now, generalized)
        &&& time_le(now, generalized, self.valid_until, self.until_generalized)
    }

    /// Tells whether the time `now`, in nanoseconds since 1970 and written
    /// as a generalized time or not, lies within the validity.
    pub fn is_valid_at(&self, now: i128, generalized: bool) -> (valid: bool)
        ensures
            valid == self.valid_at(now, generalized),
    {
        let started = self.valid_from < now || (self.valid_from == now && (!self.from_generalized
            || generalized));
        let lasting = now < self.valid_until || (now == self.valid_until && (!generalized
            || self.until_generalized));
        started && lasting
    }

    /// Tells whether the present time `now`, in nanoseconds since 1970, lies
    /// within the validity.
    pub fn is_valid_now(&self, now: i128) -> (valid: bool)
        ensures
            valid == self.valid_at(now, now >= START_OF_2050),
    {
        self.is_valid_at(now, now >= START_OF_2050)
    }
}

impl CertData {
    /// What is shown of each certificate that parses.
    pub fn details(&self) -> (details: Vec<CertInfo>)
        ensures
            Seq::new(details@.len(), |i: int| details@[i]@) == details_from(self@, 0),
    {
        let mut details: Vec<CertInfo> = Vec::new();
        let mut at: usize = 0;
        while at < self.pems.len()
            invariant
                at <= self.pems.len(),
                details_from(self@, 0) == Seq::new(details@.len(), |i: int| details@[i]@)
                    + details_from(self@, at as int),
            decreases self.pems.len() - at,
        {
            let ghost before = Seq::new(details@.len(), |i: int| details@[i]@);
            assert(self@[at as int].contents == self.pems@[at as int].contents@);
            let contents = self.pems[at].contents.as_slice();
            match certificate_info(read_certificate(contents), read_der_certificate(contents)) {
                Some(info) => {
                    let ghost first = info@;
                    details.push(info);
                    proof {
                        let after = Seq::new(details@.len(), |i: int| details@[i]@);
                        assert(after =~= before.push(first));
                        assert(before + (seq![first] + details_from(self@, at + 1)) =~= after
                            + details_from(self@, at + 1));
                    }
                },
                None => {},
            }
            at += 1;
        }
        assert(Seq::new(details@.len(), |i: int| details@[i]@) + Seq::<CertInfoView>::empty()
            =~= Seq::new(details@.len(), |i: int| details@[i]@));
        details
    }
}

} // verus!
