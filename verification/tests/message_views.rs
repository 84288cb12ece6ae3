use chrono::NaiveDateTime;
use mail_gateway::assembler::{
    detail_view, download_attachment, Envelope, MessageFlag, RawMessage,
};
use mail_gateway::encoding::EncodingType;
use mail_gateway::helper_models::PartRole;
use mail_gateway::structure::{
    ContentDisposition, ContentEncoding, LeafMetadata, Parameter, StructureNode,
};
use mail_gateway::walker::analyze;

fn param(name: &str, value: &str) -> Parameter {
    Parameter { name: name.to_string(), value: value.to_string() }
}

fn text_plain(octets: u32) -> StructureNode {
    StructureNode::Leaf(LeafMetadata {
        media_type: "TEXT".to_string(),
        subtype: "PLAIN".to_string(),
        disposition: None,
        transfer_encoding: ContentEncoding::SevenBit,
        octets,
    })
}

fn pdf_attachment(file_name: &str, octets: u32) -> StructureNode {
    StructureNode::Leaf(LeafMetadata {
        media_type: "APPLICATION".to_string(),
        subtype: "PDF".to_string(),
        disposition: Some(ContentDisposition {
            kind: "ATTACHMENT".to_string(),
            params: vec![param("FILENAME", file_name)],
        }),
        transfer_encoding: ContentEncoding::Base64,
        octets,
    })
}

fn mixed(boundary: &str, children: Vec<StructureNode>) -> StructureNode {
    StructureNode::Multipart { params: vec![param("BOUNDARY", boundary)], children }
}

fn message(text: &[u8], structure: StructureNode) -> RawMessage {
    RawMessage {
        sequence_number: 7,
        text: text.to_vec(),
        envelope: Envelope {
            sender_mailbox: Some(b"alice".to_vec()),
            sender_host: Some(b"example.org".to_vec()),
            subject: Some(b"Invoice".to_vec()),
        },
        internal_date: NaiveDateTime::default(),
        flags: vec![MessageFlag::Recent],
        structure,
    }
}

const INVOICE_MAIL: &[u8] = b"--XYZ\r\nContent-Type: text/plain\r\n\r\nHello\r\n--XYZ\r\nContent-Type: application/pdf\r\nContent-Disposition: attachment; filename=\"invoice.pdf\"\r\nContent-Transfer-Encoding: base64\r\n\r\nJVBERi0xLjQK\r\n--XYZ--\r\n";

fn invoice_mail() -> RawMessage {
    message(INVOICE_MAIL, mixed("XYZ", vec![text_plain(5), pdf_attachment("invoice.pdf", 12)]))
}

#[test]
fn single_part_plain_text_is_one_body_over_whole_buffer() {
    let raw = b"Hello world\r\n";
    let analysis = analyze(&text_plain(13), raw);
    assert_eq!(analysis.attachments.len(), 1);
    let part = &analysis.attachments[0];
    assert_eq!(part.role(), PartRole::Body);
    assert!(part.is_email_text);
    assert!(!part.is_file);
    assert_eq!(part.file_name, "Email text");
    assert_eq!((part.bytes_start, part.bytes_end), (0, raw.len()));
    assert_eq!(part.size_octets, 13);
    assert_eq!(part.encoding, EncodingType::SevenBit);

    let detail = detail_view(&message(raw, text_plain(13)));
    assert_eq!(detail.body_text, "Hello world\r\n");
    assert!(detail.attachments.is_empty());
}

#[test]
fn mixed_message_gives_body_and_named_attachment() {
    let mail = invoice_mail();
    let analysis = analyze(&mail.structure, &mail.text);
    assert_eq!(analysis.attachments.len(), 2);
    assert_eq!(analysis.attachments[0].role(), PartRole::Body);
    assert_eq!(analysis.attachments[1].role(), PartRole::Attachment);
    assert_eq!(analysis.attachments[1].file_name, "invoice.pdf");
    assert_eq!(analysis.attachments[1].encoding, EncodingType::Base64);
    let body = &analysis.attachments[0];
    assert_eq!(&mail.text[body.bytes_start..body.bytes_end], b"Hello");
    let file = &analysis.attachments[1];
    assert_eq!(&mail.text[file.bytes_start..file.bytes_end], b"JVBERi0xLjQK");

    let detail = detail_view(&mail);
    assert_eq!(detail.from_address, "alice@example.org");
    assert_eq!(detail.subject, "Invoice");
    assert_eq!(detail.send_date, NaiveDateTime::default());
    assert_eq!(detail.body_text, "Hello");
    assert_eq!(detail.attachments.len(), 1);
    assert_eq!(detail.attachments[0].file_name, "invoice.pdf");
    assert_eq!(detail.attachments[0].size_octets, 12);
    assert!(detail.attachments[0].is_file);

    let download = download_attachment(&mail, "invoice.pdf").expect("attachment is present");
    assert_eq!(download.file_name, "invoice.pdf");
    assert_eq!(download.content, b"%PDF-1.4\n");
    assert!(!download.decode_failure);
}

#[test]
fn download_of_absent_attachment_is_not_found() {
    assert!(download_attachment(&invoice_mail(), "missing.txt").is_none());
}

#[test]
fn download_by_label_of_a_part_that_is_no_attachment_is_not_found() {
    assert!(download_attachment(&invoice_mail(), "Email text").is_none());
}

#[test]
fn corrupted_base64_gives_empty_content_and_a_recorded_failure() {
    let text = b"--XYZ\r\nContent-Type: application/pdf\r\n\r\n!!!not base64!!!\r\n--XYZ--\r\n";
    let mail = message(text, mixed("XYZ", vec![pdf_attachment("broken.pdf", 16)]));
    let download = download_attachment(&mail, "broken.pdf").expect("attachment is present");
    assert_eq!(download.file_name, "broken.pdf");
    assert!(download.content.is_empty());
    assert!(download.decode_failure);

    let detail = detail_view(&mail);
    assert_eq!(detail.attachments.len(), 1);
    assert_eq!(detail.body_text, "");
}
