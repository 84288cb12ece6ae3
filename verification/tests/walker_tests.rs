use mail_gateway::classifier::classify;
use mail_gateway::encoding::{decide_encoding, EncodingType};
use mail_gateway::helper_models::{EmailAnalysis, EmailPartDescription, PartRole};
use mail_gateway::structure::{
    find_parameter, ContentDisposition, ContentEncoding, LeafMetadata, Parameter, StructureNode,
};
use mail_gateway::walker::{analyze, modify_part_description, parse_body_structure};

fn parameter(name: &str, value: &str) -> Parameter {
    Parameter { name: name.to_string(), value: value.to_string() }
}

fn leaf_of(
    media_type: &str,
    subtype: &str,
    disposition: Option<Vec<Parameter>>,
    transfer_encoding: ContentEncoding,
    octets: u32,
) -> LeafMetadata {
    LeafMetadata {
        media_type: media_type.to_string(),
        subtype: subtype.to_string(),
        disposition: disposition
            .map(|params| ContentDisposition { kind: "ATTACHMENT".to_string(), params }),
        transfer_encoding,
        octets,
    }
}

fn plain(octets: u32) -> StructureNode {
    StructureNode::Leaf(leaf_of("TEXT", "PLAIN", None, ContentEncoding::SevenBit, octets))
}

fn html(octets: u32) -> StructureNode {
    StructureNode::Leaf(leaf_of("TEXT", "HTML", None, ContentEncoding::QuotedPrintable, octets))
}

fn file(name: &str, octets: u32) -> StructureNode {
    StructureNode::Leaf(leaf_of(
        "APPLICATION",
        "OCTET-STREAM",
        Some(vec![parameter("FILENAME", name)]),
        ContentEncoding::Base64,
        octets,
    ))
}

fn multipart(boundary: &str, children: Vec<StructureNode>) -> StructureNode {
    StructureNode::Multipart {
        params: vec![parameter("CHARSET", "UTF-8"), parameter("BOUNDARY", boundary)],
        children,
    }
}

const NESTED: &[u8] = b"--A\r\nContent-Type: multipart/alternative; boundary=B\r\n\r\n--B\r\nT: p\r\n\r\nplain\r\n--B\r\nT: h\r\n\r\n<p>html</p>\r\n--B--\r\n--A\r\nT: f\r\n\r\nZmlsZQ==\r\n--A--\r\n";

const THREE: &[u8] = b"--s\r\nH: 1\r\n\r\none\r\n--s\r\nH: 2\r\n\r\ntwo\r\n--s\r\nH: 3\r\n\r\nthree\r\n--s--\r\n";

fn content<'a>(raw: &'a [u8], part: &EmailPartDescription) -> &'a [u8] {
    &raw[part.bytes_start..part.bytes_end]
}

fn assert_in_document_order(analysis: &EmailAnalysis, len: usize) {
    let parts = &analysis.attachments;
    for part in parts {
        assert!(part.bytes_start <= part.bytes_end && part.bytes_end <= len);
    }
    for j in 0..parts.len() {
        for i in 0..j {
            if parts[j].bytes_end > 0 {
                assert!(parts[i].bytes_end <= parts[j].bytes_start);
            }
            assert!(
                parts[i].bytes_end <= parts[j].bytes_start
                    || parts[j].bytes_end <= parts[i].bytes_start
            );
        }
    }
}

#[test]
fn nested_multipart_is_walked_depth_first() {
    let tree = multipart("A", vec![multipart("B", vec![plain(5), html(11)]), file("f.bin", 8)]);
    let analysis = analyze(&tree, NESTED);
    assert_eq!(analysis.plain_text_octets, 0);
    let parts = &analysis.attachments;
    assert_eq!(parts.len(), 3);

    assert_eq!(parts[0].role(), PartRole::Body);
    assert_eq!(parts[0].file_name, "Email text");
    assert_eq!(content(NESTED, &parts[0]), b"plain");
    assert_eq!(parts[0].size_octets, 5);
    assert_eq!(parts[0].encoding, EncodingType::SevenBit);

    assert_eq!(parts[1].role(), PartRole::Unclassified);
    assert_eq!(parts[1].file_name, "Unparsed attachment");
    assert_eq!(content(NESTED, &parts[1]), b"<p>html</p>");
    assert_eq!(parts[1].size_octets, 11);
    assert_eq!(parts[1].encoding, EncodingType::Other);

    assert_eq!(parts[2].role(), PartRole::Attachment);
    assert_eq!(parts[2].file_name, "f.bin");
    assert_eq!(content(NESTED, &parts[2]), b"ZmlsZQ==");
    assert_eq!(parts[2].encoding, EncodingType::Base64);

    assert_in_document_order(&analysis, NESTED.len());
}

#[test]
fn flat_multipart_gives_one_description_per_leaf_in_order() {
    let tree = multipart("s", vec![file("a", 3), file("b", 3), file("c", 5)]);
    let analysis = analyze(&tree, THREE);
    let names: Vec<&str> = analysis.attachments.iter().map(|p| p.file_name.as_str()).collect();
    assert_eq!(names, vec!["a", "b", "c"]);
    let contents: Vec<&[u8]> = analysis.attachments.iter().map(|p| content(THREE, p)).collect();
    assert_eq!(contents, vec![&b"one"[..], &b"two"[..], &b"three"[..]]);
    assert_in_document_order(&analysis, THREE.len());
}

#[test]
fn multipart_without_boundary_gives_nothing() {
    let tree = StructureNode::Multipart {
        params: vec![parameter("CHARSET", "UTF-8")],
        children: vec![plain(3), file("a", 3)],
    };
    assert!(analyze(&tree, THREE).attachments.is_empty());
}

#[test]
fn nested_multipart_without_boundary_is_skipped_and_counted() {
    let skipped = StructureNode::Multipart { params: vec![], children: vec![plain(1), plain(2)] };
    let tree = multipart("s", vec![file("a", 3), skipped, file("c", 5)]);
    let analysis = analyze(&tree, THREE);
    assert_eq!(analysis.attachments.len(), 2);
    assert_eq!(content(THREE, &analysis.attachments[0]), b"one");
    assert_eq!(content(THREE, &analysis.attachments[1]), b"three");
}

#[test]
fn embedded_message_gives_nothing_and_keeps_its_place() {
    let tree = multipart("s", vec![StructureNode::NestedMessage, plain(3), file("c", 5)]);
    let analysis = analyze(&tree, THREE);
    assert_eq!(analysis.attachments.len(), 2);
    assert_eq!(content(THREE, &analysis.attachments[0]), b"two");
    assert_eq!(analysis.attachments[0].role(), PartRole::Body);
    assert_eq!(content(THREE, &analysis.attachments[1]), b"three");
    assert!(analyze(&StructureNode::NestedMessage, THREE).attachments.is_empty());
}

#[test]
fn second_plain_text_stays_unclassified() {
    let tree = multipart("s", vec![plain(3), plain(3), file("c", 5)]);
    let analysis = analyze(&tree, THREE);
    let parts = &analysis.attachments;
    assert_eq!(parts.len(), 3);
    assert_eq!(parts[0].role(), PartRole::Body);
    assert_eq!(parts[1].role(), PartRole::Unclassified);
    assert_eq!(parts[1].file_name, "Unparsed attachment");
    assert!(!parts[1].is_email_text && !parts[1].is_file);
    assert_eq!(content(THREE, &parts[1]), b"two");
    assert_eq!(parts.iter().filter(|p| p.is_email_text).count(), 1);
}

#[test]
fn part_without_section_degrades_to_placeholder() {
    let tree = multipart("s", vec![plain(3), file("b", 3), file("c", 5), file("lost", 9)]);
    let analysis = analyze(&tree, THREE);
    let parts = &analysis.attachments;
    assert_eq!(parts.len(), 4);
    let lost = &parts[3];
    assert_eq!((lost.bytes_start, lost.bytes_end), (0, 0));
    assert_eq!(lost.file_name, "Unparsed attachment");
    assert_eq!(lost.role(), PartRole::Unclassified);
    assert_eq!(lost.size_octets, 9);
    assert_eq!(lost.encoding, EncodingType::Base64);
    assert_in_document_order(&analysis, THREE.len());
}

#[test]
fn walk_appends_behind_what_the_analysis_holds() {
    let mut analysis = EmailAnalysis { plain_text_octets: 42, attachments: vec![] };
    parse_body_structure(&plain(3), b"abc", &mut analysis, None, 0);
    assert_eq!(analysis.attachments.len(), 1);
    assert!(analysis.attachments[0].is_email_text);
    let first = analysis.attachments[0].file_name.clone();

    let tree = multipart("s", vec![plain(3), file("b", 3)]);
    parse_body_structure(&tree, THREE, &mut analysis, None, 0);
    assert_eq!(analysis.plain_text_octets, 42);
    assert_eq!(analysis.attachments.len(), 3);
    assert_eq!(analysis.attachments[0].file_name, first);
    assert_eq!(analysis.attachments[1].role(), PartRole::Unclassified);
    assert_eq!(content(THREE, &analysis.attachments[1]), b"one");
    assert_eq!(analysis.attachments[2].role(), PartRole::Attachment);
}

#[test]
fn leaf_under_a_separator_is_found_by_its_index() {
    let mut analysis = EmailAnalysis::new();
    parse_body_structure(&file("x", 1), THREE, &mut analysis, Some("s"), 2);
    assert_eq!(content(THREE, &analysis.attachments[0]), b"three");
    parse_body_structure(&file("y", 1), THREE, &mut analysis, Some("s"), 3);
    assert_eq!(analysis.attachments[1].file_name, "Unparsed attachment");
    assert_eq!(analysis.attachments.len(), 2);
}

#[test]
fn analysis_is_the_same_when_run_again() {
    let tree = multipart("A", vec![multipart("B", vec![plain(5), html(11)]), file("f.bin", 8)]);
    assert_eq!(analyze(&tree, NESTED), analyze(&tree, NESTED));
}

#[test]
fn modify_part_description_keeps_placeholder_without_range() {
    let leaf = leaf_of("TEXT", "PLAIN", None, ContentEncoding::SevenBit, 4);
    let placeholder = || EmailPartDescription {
        file_name: "Unparsed attachment".to_string(),
        size_octets: 4,
        bytes_start: 0,
        bytes_end: 0,
        is_file: false,
        is_email_text: false,
        encoding: EncodingType::SevenBit,
    };
    let mut part = placeholder();
    modify_part_description(None, false, &mut part, &leaf);
    assert_eq!(part, placeholder());

    modify_part_description(Some((3, 7)), false, &mut part, &leaf);
    assert_eq!((part.bytes_start, part.bytes_end), (3, 7));
    assert!(part.is_email_text);
    assert_eq!(part.file_name, "Email text");

    let mut second = placeholder();
    modify_part_description(Some((3, 7)), true, &mut second, &leaf);
    assert_eq!((second.bytes_start, second.bytes_end), (3, 7));
    assert!(!second.is_email_text);
    assert_eq!(second.file_name, "Unparsed attachment");
}

#[test]
fn modify_part_description_leaves_size_and_encoding_alone() {
    let leaf = leaf_of(
        "IMAGE",
        "PNG",
        Some(vec![parameter("FILENAME", "a.png")]),
        ContentEncoding::Base64,
        4,
    );
    let mut part = EmailPartDescription {
        file_name: "before".to_string(),
        size_octets: 99,
        bytes_start: 1,
        bytes_end: 2,
        is_file: false,
        is_email_text: true,
        encoding: EncodingType::SevenBit,
    };
    modify_part_description(Some((10, 20)), false, &mut part, &leaf);
    assert_eq!(
        part,
        EmailPartDescription {
            file_name: "a.png".to_string(),
            size_octets: 99,
            bytes_start: 10,
            bytes_end: 20,
            is_file: true,
            is_email_text: false,
            encoding: EncodingType::SevenBit,
        }
    );
}

#[test]
fn classify_names_attachment_by_its_file_name() {
    let leaf = leaf_of(
        "TEXT",
        "PLAIN",
        Some(vec![parameter("SIZE", "3"), parameter("FILENAME", "notes.txt")]),
        ContentEncoding::SevenBit,
        3,
    );
    let outcome = classify(&leaf);
    assert_eq!(outcome.role, PartRole::Attachment);
    assert_eq!(outcome.label, "notes.txt");
    assert!(outcome.is_file);
}

#[test]
fn classify_takes_first_file_name() {
    let leaf = leaf_of(
        "IMAGE",
        "PNG",
        Some(vec![parameter("FILENAME", "a.png"), parameter("FILENAME", "b.png")]),
        ContentEncoding::Base64,
        3,
    );
    assert_eq!(classify(&leaf).label, "a.png");
}

#[test]
fn classify_plain_text_without_disposition_is_body() {
    let outcome = classify(&leaf_of("TEXT", "PLAIN", None, ContentEncoding::SevenBit, 3));
    assert_eq!(outcome.role, PartRole::Body);
    assert_eq!(outcome.label, "Email text");
    assert!(!outcome.is_file);
}

#[test]
fn classify_other_parts_are_unclassified() {
    for leaf in [
        leaf_of("TEXT", "HTML", None, ContentEncoding::SevenBit, 3),
        leaf_of("text", "plain", None, ContentEncoding::SevenBit, 3),
        leaf_of("TEXT", "PLAIN", Some(vec![]), ContentEncoding::SevenBit, 3),
        leaf_of("IMAGE", "PNG", Some(vec![parameter("NAME", "a.png")]), ContentEncoding::Base64, 3),
    ] {
        let outcome = classify(&leaf);
        assert_eq!(outcome.role, PartRole::Unclassified);
        assert_eq!(outcome.label, "Unparsed attachment");
        assert!(!outcome.is_file);
    }
}

#[test]
fn find_parameter_gives_first_value_of_the_name() {
    let params =
        vec![parameter("A", "1"), parameter("BOUNDARY", "x"), parameter("BOUNDARY", "y")];
    assert_eq!(find_parameter(&params, "BOUNDARY").map(String::as_str), Some("x"));
    assert_eq!(find_parameter(&params, "boundary"), None);
    assert_eq!(find_parameter(&vec![], "BOUNDARY"), None);
}

#[test]
fn decide_encoding_keeps_seven_bit_and_base64() {
    let tag = |encoding| decide_encoding(&leaf_of("A", "B", None, encoding, 0));
    assert_eq!(tag(ContentEncoding::SevenBit), EncodingType::SevenBit);
    assert_eq!(tag(ContentEncoding::Base64), EncodingType::Base64);
    assert_eq!(tag(ContentEncoding::EightBit), EncodingType::Other);
    assert_eq!(tag(ContentEncoding::Binary), EncodingType::Other);
    assert_eq!(tag(ContentEncoding::QuotedPrintable), EncodingType::Other);
    assert_eq!(tag(ContentEncoding::Other("X-UUENCODE".to_string())), EncodingType::Other);
}
