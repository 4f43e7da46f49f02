use wombat::app::{File, WombatApp};
use wombat::cert::{
    certificate_info, key_labels, take_certificate, CertData, CertInfo, DerCertificate, Validity,
    START_OF_2050,
};
use wombat::detection::{Detection, DetectionCache, FileInfoData};
use wombat::text::reads;
use wombat::importer::{ImportType, ImporterEvent};
use wombat::xml::{
    attribute_label, children, comment_label, format_element_label, subtree_end, text_label,
    XmlData, XmlNode,
};

const CERTIFICATE_PEM: &str = "-----BEGIN CERTIFICATE-----
MIIBUTCB2KADAgECAgkAtXGSKEzrTR4wCgYIKoZIzj0EAwIwEDEOMAwGA1UEAwwF
YmVubm8wHhcNMTgxMTEzMDI1NDQwWhcNMTkxMTEzMDI1NDQwWjAQMQ4wDAYDVQQD
DAViZW5ubzB2MBAGByqGSM49AgEGBSuBBAAiA2IABDhrHLVTMHC7GTyB/MNztToW
ss2zlmvR62X1pQaBN6fYhBJE1XYa0V2C1fGGXj92MencOtXyfYVxn+DY07gyT/71
HQ12TJOe90wwjy2/6N1W1jOv5HjphVT8JQlVNqAC+DAKBggqhkjOPQQDAgNoADBl
AjAfzS1tmZ+GSAaXrsPcfAd1A9yfWVtB8tWxFNNo2j7/cL3puf2vQnlwV/0BoZZ1
K4ICMQDaE0HemgYp6RPQzeb96a2gjlaEbwNy1B8O74fE24WRXiOUm4eln9wGQ3I1
iV6NtZU=
-----END CERTIFICATE-----
";

const PNG: [u8; 20] = [
    0x89, 0x50, 0x4e, 0x47, 0x0d, 0x0a, 0x1a, 0x0a, 0, 0, 0, 0, 0x49, 0x45, 0x4e, 0x44, 0xae, 0x42,
    0x60, 0x82,
];

fn info(extension: &str) -> FileInfoData {
    FileInfoData {
        kind: "Other".to_string(),
        file_type: "application/octet-stream".to_string(),
        extension: extension.to_string(),
        name: "Some format".to_string(),
    }
}

fn file(data: &[u8]) -> File {
    File { data: data.to_vec(), path: "sample".to_string() }
}

fn idle() -> ImporterEvent {
    ImporterEvent {
        still_open: true,
        selected: ImportType::String,
        import_clicked: false,
        edited: None,
    }
}

fn der_certificate() -> Vec<u8> {
    let parsed = CertData::parse(CERTIFICATE_PEM.as_bytes(), false).unwrap();
    parsed.pems[0].contents.clone()
}

#[test]
fn reads_compares_the_whole_text() {
    assert!(reads(&"png".to_string(), "png"));
    assert!(!reads(&"png".to_string(), "pn"));
    assert!(!reads(&"PNG".to_string(), "png"));
    assert!(!reads(&"".to_string(), "png"));
}

#[test]
fn pem_blocks_are_read_with_label_and_contents() {
    let text = "-----BEGIN CERTIFICATE-----\nAQID\n-----END CERTIFICATE-----\nnoise\n\
                -----BEGIN PUBLIC KEY-----\nBAUG\nBwg=\n-----END PUBLIC KEY-----\n";
    let parsed = CertData::parse(text.as_bytes(), false).unwrap();
    assert_eq!(parsed.len(), 2);
    assert_eq!(parsed.pems[0].label, "CERTIFICATE");
    assert_eq!(parsed.pems[0].contents, vec![1, 2, 3]);
    assert_eq!(parsed.pems[1].label, "PUBLIC KEY");
    assert_eq!(parsed.pems[1].contents, vec![4, 5, 6, 7, 8]);
}

#[test]
fn a_pem_buffer_without_blocks_has_no_certificates() {
    let parsed = CertData::parse(b"no certificate here\n", false).unwrap();
    assert_eq!(parsed.len(), 0);
    let empty = CertData::parse(b"", false).unwrap();
    assert_eq!(empty.len(), 0);
}

#[test]
fn a_malformed_pem_block_fails_the_parse() {
    let unfinished = "-----BEGIN CERTIFICATE-----\nAQID\n";
    assert!(CertData::parse(unfinished.as_bytes(), false).is_none());
    let not_base64 = "-----BEGIN CERTIFICATE-----\n!!!!\n-----END CERTIFICATE-----\n";
    assert!(CertData::parse(not_base64.as_bytes(), false).is_none());
}

#[test]
fn der_certificates_are_cut_one_after_the_other() {
    let der = der_certificate();
    assert_eq!(der.len(), 341);
    let one = CertData::parse(&der, true).unwrap();
    assert_eq!(one.len(), 1);
    assert_eq!(one.pems[0].label, "CERTIFICATE");
    assert_eq!(one.pems[0].contents, der);
    let mut two = der.clone();
    two.extend_from_slice(&der);
    let both = CertData::parse(&two, true).unwrap();
    assert_eq!(both.len(), 2);
    assert_eq!(both.pems[0].contents, der);
    assert_eq!(both.pems[1].contents, der);
}

#[test]
fn der_parse_fails_on_what_is_no_certificate() {
    let der = der_certificate();
    let mut trailing = der.clone();
    trailing.extend_from_slice(&[1, 2, 3]);
    assert!(CertData::parse(&trailing, true).is_none());
    assert!(CertData::parse(&der[..200], true).is_none());
    assert!(CertData::parse(CERTIFICATE_PEM.as_bytes(), true).is_none());
    assert_eq!(CertData::parse(&[], true).unwrap().len(), 0);
}

#[test]
fn take_certificate_goes_by_the_length_that_was_read() {
    let bytes = [10u8, 11, 12, 13, 14];
    let taken = take_certificate(&bytes, 1, Some(3)).unwrap();
    assert_eq!(taken.label, "CERTIFICATE");
    assert_eq!(taken.contents, vec![11, 12, 13]);
    assert_eq!(take_certificate(&bytes, 1, Some(4)).unwrap().contents, vec![11, 12, 13, 14]);
    assert!(take_certificate(&bytes, 1, Some(5)).is_none());
    assert!(take_certificate(&bytes, 1, Some(0)).is_none());
    assert!(take_certificate(&bytes, 1, Some(usize::MAX)).is_none());
    assert!(take_certificate(&bytes, 1, None).is_none());
    assert!(take_certificate(&bytes, 5, Some(1)).is_none());
}

#[test]
fn key_labels_shorten_long_keys() {
    let short = key_labels(&[0xab; 10]);
    assert_eq!(short.0, "ABABABABABABABABABAB");
    assert_eq!(short.1, "ABABABABABABABABABAB");
    let long = key_labels(&[0x01, 0x23, 0x45, 0x67, 0x89, 0xab, 0xcd, 0xef, 0x00, 0x11, 0x22]);
    assert_eq!(long.0, "0123456789ABCDEF001122");
    assert_eq!(long.1, "0123456789ABCDEF0011...");
    let none = key_labels(&[]);
    assert_eq!(none.0, "");
    assert_eq!(none.1, "");
}

#[test]
fn xml_text_is_read_as_utf8() {
    assert_eq!(XmlData::parse("<a>h\u{e9}</a>".as_bytes()).inner, "<a>h\u{e9}</a>");
    assert_eq!(XmlData::parse(b"").inner, "");
    assert_eq!(XmlData::parse(&[0x3c, 0xff, 0x3e]).inner, "<\u{fffd}>");
}

#[test]
fn element_labels() {
    assert_eq!(format_element_label("svg", None), "<svg>");
    assert_eq!(format_element_label("g", Some("layer1")), "<g id=\"layer1\">");
    assert_eq!(format_element_label("", Some("")), "< id=\"\">");
}

#[test]
fn attribute_and_comment_labels() {
    assert_eq!(attribute_label("width", "100"), "@width=\"100\"");
    assert_eq!(attribute_label("", ""), "@=\"\"");
    assert_eq!(comment_label(Some(" note ")), "<!--  note  -->");
    assert_eq!(comment_label(None), "<!--  -->");
}

#[test]
fn text_labels_are_trimmed() {
    assert_eq!(text_label(Some("  hello world \n")), Some("hello world".to_string()));
    assert_eq!(text_label(Some("x")), Some("x".to_string()));
    assert_eq!(text_label(Some("\u{a0}x y\u{2003}")), Some("x y".to_string()));
    assert_eq!(text_label(Some(" \t\n ")), None);
    assert_eq!(text_label(Some("")), None);
    assert_eq!(text_label(None), None);
    for text in ["", " a", "a ", " a b ", "\n\n", "tab\there"] {
        let trimmed = text.trim();
        let expected = if trimmed.is_empty() { None } else { Some(trimmed.to_string()) };
        assert_eq!(text_label(Some(text)), expected);
    }
}

#[test]
fn the_cache_is_parsed_by_extension() {
    assert!(matches!(DetectionCache::parse(&PNG, &info("png")), DetectionCache::Png(Some(_))));
    assert!(matches!(DetectionCache::parse(b"GIF89a", &info("png")), DetectionCache::Png(None)));
    assert!(matches!(DetectionCache::parse(b"<a/>", &info("xml")), DetectionCache::Xml(Some(_))));
    assert!(matches!(
        DetectionCache::parse(CERTIFICATE_PEM.as_bytes(), &info("crt")),
        DetectionCache::Cert(Some(_))
    ));
    assert!(matches!(
        DetectionCache::parse(&der_certificate(), &info("der")),
        DetectionCache::Cert(Some(_))
    ));
    assert!(matches!(DetectionCache::parse(&[1, 2, 3], &info("der")), DetectionCache::Cert(None)));
    assert!(matches!(DetectionCache::parse(&PNG, &info("gif")), DetectionCache::Empty));
    assert!(matches!(DetectionCache::parse(&PNG, &info("")), DetectionCache::Empty));
    assert!(DetectionCache::parse(&PNG, &info("gif")).is_empty());
    assert!(!DetectionCache::parse(&PNG, &info("png")).is_empty());
}

#[test]
fn the_parsed_png_cache_holds_the_chunk_table() {
    match DetectionCache::parse(&PNG, &info("png")) {
        DetectionCache::Png(Some(data)) => {
            assert_eq!(data.chunks.len(), 1);
            assert!(data.chunks[0].crc_valid);
        }
        _ => panic!("no chunk table"),
    }
    match DetectionCache::parse("<a>\u{e9}</a>".as_bytes(), &info("xml")) {
        DetectionCache::Xml(Some(data)) => assert_eq!(data.inner, "<a>\u{e9}</a>"),
        _ => panic!("no text"),
    }
}

#[test]
fn the_detection_window_parses_once_it_is_shown() {
    let mut detection = Detection::new();
    assert!(!detection.is_open);
    detection.prepare(&PNG, &info("png"));
    assert!(detection.cache.is_empty());
    detection.is_open = true;
    detection.prepare(&PNG, &info("png"));
    assert!(matches!(detection.cache, DetectionCache::Png(Some(_))));
    detection.reset();
    assert!(detection.cache.is_empty());
    assert!(detection.is_open);
}

#[test]
fn the_format_of_the_buffer_is_detected() {
    let mut app = WombatApp::new(file(&PNG));
    assert!(app.file_format.is_none());
    app.detect();
    let format = app.file_format.as_ref().unwrap();
    assert_eq!(format.extension, "png");
    assert_eq!(format.file_type, "image/png");
    assert_eq!(format.name, "Portable Network Graphics");
    assert_eq!(format.kind, "Image");
}

#[test]
fn unknown_and_empty_buffers_are_detected_as_such() {
    let mut zeros = WombatApp::new(file(&[0; 100]));
    zeros.detect();
    assert_eq!(zeros.file_format.as_ref().unwrap().extension, "bin");
    assert_eq!(zeros.file_format.as_ref().unwrap().kind, "Other");
    let mut empty = WombatApp::new(file(&[]));
    empty.detect();
    assert_eq!(empty.file_format.as_ref().unwrap().extension, "empty");
}

#[test]
fn certificates_are_detected_and_parsed_in_the_window() {
    let mut pem = WombatApp::new(file(CERTIFICATE_PEM.as_bytes()));
    pem.windows_data.open_detection();
    assert!(!pem.update_windows(idle()));
    assert_eq!(pem.file_format.as_ref().unwrap().extension, "crt");
    match &pem.windows_data.detection.cache {
        DetectionCache::Cert(Some(data)) => assert_eq!(data.len(), 1),
        _ => panic!("no certificates"),
    }
    let mut der = WombatApp::new(file(&der_certificate()));
    der.windows_data.open_detection();
    der.update_windows(idle());
    assert_eq!(der.file_format.as_ref().unwrap().extension, "der");
    match &der.windows_data.detection.cache {
        DetectionCache::Cert(Some(data)) => assert_eq!(data.pems[0].contents.len(), 341),
        _ => panic!("no certificates"),
    }
}

#[test]
fn certificate_details_are_read() {
    let parsed = CertData::parse(CERTIFICATE_PEM.as_bytes(), false).unwrap();
    let details = parsed.details();
    assert_eq!(details.len(), 1);
    let texts = &details[0].texts;
    assert_eq!(texts.version, "V3");
    assert_eq!(texts.subject, "CN=benno");
    assert_eq!(texts.issuer, "CN=benno");
    assert_eq!(texts.serial, "13074391895020096798");
    assert_eq!(texts.signature_algorithm, "1.2.840.10045.4.3.2");
    assert_eq!(texts.public_key_algorithm, "1.2.840.10045.2.1");
    assert_eq!(texts.public_key.len(), 97);
    assert_eq!(texts.public_key[0], 0x04);
    let validity = &details[0].validity;
    assert_eq!(validity.not_before, "Nov 13 02:54:40 2018 +00:00");
    assert_eq!(validity.not_after, "Nov 13 02:54:40 2019 +00:00");
    assert_eq!(validity.valid_from, 1_542_077_680_000_000_000);
    assert_eq!(validity.valid_until, 1_573_613_680_000_000_000);
    assert!(!validity.from_generalized);
    assert!(!validity.until_generalized);
    let labels = key_labels(&texts.public_key);
    assert_eq!(labels.0.len(), 194);
    assert_eq!(labels.1, "04386B1CB5533070BB19...");
}

#[test]
fn validity_includes_its_bounds() {
    let parsed = CertData::parse(CERTIFICATE_PEM.as_bytes(), false).unwrap();
    let validity = &parsed.details()[0].validity;
    assert!(validity.is_valid_now(validity.valid_from));
    assert!(validity.is_valid_now(validity.valid_until));
    assert!(validity.is_valid_now(1_550_000_000_000_000_000));
    assert!(!validity.is_valid_now(validity.valid_from - 1));
    assert!(!validity.is_valid_now(validity.valid_until + 1));
    assert!(!validity.is_valid_now(0));
    assert!(!validity.is_valid_now(START_OF_2050));
}

#[test]
fn at_the_same_instant_the_kind_of_time_decides() {
    let validity = Validity {
        not_before: "start".to_string(),
        not_after: "end".to_string(),
        valid_from: 100,
        from_generalized: true,
        valid_until: 200,
        until_generalized: false,
    };
    assert!(validity.is_valid_at(150, false));
    assert!(validity.is_valid_at(150, true));
    assert!(validity.is_valid_at(100, true));
    assert!(!validity.is_valid_at(100, false));
    assert!(validity.is_valid_at(200, false));
    assert!(!validity.is_valid_at(200, true));
    assert!(!validity.is_valid_at(99, true));
    assert!(!validity.is_valid_at(201, false));
    let late = Validity {
        not_before: "start".to_string(),
        not_after: "end".to_string(),
        valid_from: START_OF_2050,
        from_generalized: true,
        valid_until: START_OF_2050 + 5,
        until_generalized: true,
    };
    assert!(late.is_valid_now(START_OF_2050));
    assert!(late.is_valid_now(START_OF_2050 + 5));
    assert!(!late.is_valid_now(START_OF_2050 - 1));
    assert_eq!(START_OF_2050, 2_524_608_000i128 * 1_000_000_000);
}

#[test]
fn certificate_info_needs_both_readings() {
    let parsed = CertData::parse(CERTIFICATE_PEM.as_bytes(), false).unwrap();
    let mut details = parsed.details();
    let CertInfo { texts, validity } = details.pop().unwrap();
    let der = DerCertificate { len: 341, validity };
    assert!(certificate_info(None, None).is_none());
    assert!(certificate_info(None, Some(der)).is_none());
    let again = parsed.details().pop().unwrap();
    assert!(certificate_info(Some(again.texts), None).is_none());
    let der = DerCertificate { len: 341, validity: parsed.details().pop().unwrap().validity };
    let info = certificate_info(Some(texts), Some(der)).unwrap();
    assert_eq!(info.texts.subject, "CN=benno");
    assert_eq!(info.validity.valid_from, 1_542_077_680_000_000_000);
}

#[test]
fn blocks_that_are_no_certificates_have_no_details() {
    let text = "-----BEGIN CERTIFICATE-----\nAQID\n-----END CERTIFICATE-----\n";
    let mut both = text.to_string();
    both.push_str(CERTIFICATE_PEM);
    let parsed = CertData::parse(both.as_bytes(), false).unwrap();
    assert_eq!(parsed.len(), 2);
    let details = parsed.details();
    assert_eq!(details.len(), 1);
    assert_eq!(details[0].texts.subject, "CN=benno");
}

fn tree_of(text: &str) -> Vec<XmlNode> {
    XmlData::parse(text.as_bytes()).tree().unwrap()
}

#[test]
fn an_xml_document_is_read_in_document_order() {
    let nodes = tree_of("<!-- top --><a id=\"root\" x=\"1\"><b>hi</b><!-- note --><c/> tail </a>");
    let kinds: Vec<(usize, bool, bool, bool, &str)> = nodes
        .iter()
        .map(|n| (n.depth, n.is_element, n.is_text, n.is_comment, n.tag.as_str()))
        .collect();
    assert_eq!(
        kinds,
        vec![
            (2, true, false, false, "a"),
            (3, true, false, false, "b"),
            (4, false, true, false, ""),
            (3, false, false, true, ""),
            (3, true, false, false, "c"),
            (3, false, true, false, ""),
        ]
    );
    assert_eq!(nodes[0].id(), Some("root"));
    assert_eq!(nodes[1].id(), None);
    assert_eq!(
        nodes[0].attributes,
        vec![("id".to_string(), "root".to_string()), ("x".to_string(), "1".to_string())]
    );
    assert_eq!(nodes[1].text, Some("hi".to_string()));
    assert_eq!(nodes[3].text, Some(" note ".to_string()));
}

#[test]
fn node_labels() {
    let nodes = tree_of("<a id=\"root\" x=\"1\"><b>hi</b><!-- note --><c/> tail <d> </d></a>");
    let labels: Vec<Option<String>> = nodes.iter().map(|n| n.label()).collect();
    assert_eq!(
        labels,
        vec![
            Some("<a id=\"root\">".to_string()),
            Some("<b>".to_string()),
            Some("hi".to_string()),
            Some("<!--  note  -->".to_string()),
            Some("<c>".to_string()),
            Some("tail".to_string()),
            Some("<d>".to_string()),
            None,
        ]
    );
    assert_eq!(nodes[0].attribute_labels(), vec!["@id=\"root\"", "@x=\"1\""]);
    assert!(nodes[1].attribute_labels().is_empty());
}

#[test]
fn subtree_end_finds_the_next_node_that_is_no_deeper() {
    let nodes = tree_of("<a><b><c/><d>x</d></b><e/></a>");
    // a b c d x e
    assert_eq!(subtree_end(&nodes, 0), 6);
    assert_eq!(subtree_end(&nodes, 1), 5);
    assert_eq!(subtree_end(&nodes, 2), 3);
    assert_eq!(subtree_end(&nodes, 3), 5);
    assert_eq!(subtree_end(&nodes, 4), 5);
    assert_eq!(subtree_end(&nodes, 5), 6);
}

#[test]
fn malformed_xml_gives_the_words_of_the_error() {
    let unclosed = XmlData::parse(b"<a>").tree();
    assert!(unclosed.is_err());
    assert!(!unclosed.unwrap_err().is_empty());
    assert!(XmlData::parse(b"").tree().is_err());
    assert!(XmlData::parse(b"plain text").tree().is_err());
}

#[test]
fn cut_certificate_copies_the_bytes() {
    let bytes = [10u8, 11, 12, 13, 14];
    let cut = wombat::cert::cut_certificate(&bytes, 2, 3);
    assert_eq!(cut.label, "CERTIFICATE");
    assert_eq!(cut.contents, vec![12, 13, 14]);
    assert!(wombat::cert::cut_certificate(&bytes, 5, 0).contents.is_empty());
}

#[test]
fn the_id_is_the_first_attribute_of_that_local_name() {
    let plain = tree_of("<a x=\"1\" id=\"7\" y=\"2\"/>");
    assert_eq!(plain[0].id(), Some("7"));
    assert_eq!(plain[0].label(), Some("<a id=\"7\">".to_string()));
    let prefixed = tree_of("<a xmlns:n=\"urn:n\" n:id=\"8\" id=\"9\"/>");
    assert_eq!(prefixed[0].id(), Some("8"));
    assert_eq!(prefixed[0].label(), Some("<a id=\"8\">".to_string()));
    let other = tree_of("<a ID=\"1\" idx=\"2\"/>");
    assert_eq!(other[0].id(), None);
    assert_eq!(other[0].label(), Some("<a>".to_string()));
}

#[test]
fn children_are_the_nodes_one_level_below() {
    let nodes = tree_of("<a><b><c/><d>x</d></b><e/>tail<f><g/></f></a>");
    // a b c d x e tail f g
    assert_eq!(children(&nodes, 0), vec![1, 5, 6, 7]);
    assert_eq!(children(&nodes, 1), vec![2, 3]);
    assert_eq!(children(&nodes, 2), Vec::<usize>::new());
    assert_eq!(children(&nodes, 3), vec![4]);
    assert_eq!(children(&nodes, 7), vec![8]);
    assert_eq!(children(&nodes, 8), Vec::<usize>::new());
    for (at, node) in nodes.iter().enumerate() {
        for kid in children(&nodes, at) {
            assert_eq!(nodes[kid].depth, node.depth + 1);
        }
    }
}
