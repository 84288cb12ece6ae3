use mail_gateway::auth::{
    check_is_valid_session, sign_in_failure, sign_in_success, sign_out_reply, AuthGuardFactory,
    SessionError, SignInMessage, SignInStage,
};
use mail_gateway::commands::{attachment_fetch, delete_store, detail_fetch, listing_fetch, listing_mailbox};
use mail_gateway::mailbox::{
    decode_mailbox_name, is_decodable_name, selectable_mailboxes, MailboxEntry, UndecodableName,
};
use mail_gateway::models::{
    form_field, EmailAttachmentInDTO, EmailDeleteInDTO, EmailDetailInDTO, EmailInDTO,
    EmailListInDTO, FormField,
};
use mail_gateway::outgoing::{stage_file, staging_path};

fn credentials() -> SignInMessage {
    SignInMessage {
        email: "alice@example.org".to_string(),
        password: "SECRET-REDACTED".to_string(),
        domain: "example.org".to_string(),
    }
}

fn entry(name: &str, no_select: bool) -> MailboxEntry {
    MailboxEntry { name: name.to_string(), no_select }
}

#[test]
fn imap_host_is_the_domain_behind_imap() {
    assert_eq!(credentials().get_imap_string(), "imap.example.org");
    assert_eq!(credentials().get_smtp_string(), "smtp.example.org");
}

#[test]
fn imap_host_of_an_empty_domain() {
    let mut message = credentials();
    message.domain = String::new();
    assert_eq!(message.get_imap_string(), "imap.");
}

#[test]
fn session_with_all_three_values_is_valid() {
    let found = check_is_valid_session(
        Some("alice@example.org".to_string()),
        Some("SECRET-REDACTED".to_string()),
        Some("example.org".to_string()),
    );
    assert_eq!(found, Ok(credentials()));
}

#[test]
fn session_that_lacks_a_value_is_unauthenticated() {
    let value = || Some("x".to_string());
    assert_eq!(check_is_valid_session(None, value(), value()), Err(SessionError::Unauthenticated));
    assert_eq!(check_is_valid_session(value(), None, value()), Err(SessionError::Unauthenticated));
    assert_eq!(check_is_valid_session(value(), value(), None), Err(SessionError::Unauthenticated));
    assert_eq!(check_is_valid_session(None, None, None), Err(SessionError::Unauthenticated));
    assert_eq!(SessionError::Unauthenticated.message(), "Unauthenticated");
}

#[test]
fn guard_lets_a_request_with_cookie_through() {
    let guard = AuthGuardFactory.new_transform("service");
    assert_eq!(guard.service, "service");
    assert_eq!(guard.call(Some("cookie")), Ok(&"service"));
    assert_eq!(guard.call(Some("")), Ok(&"service"));
    assert_eq!(guard.call(None), Err(SessionError::Unauthenticated));
}

#[test]
fn failed_sign_in_names_the_step() {
    let reply = sign_in_failure(SignInStage::SmtpSession, "refused");
    assert!(!reply.authorized);
    assert_eq!(reply.body, "SMTP error: refused");
    assert_eq!(sign_in_failure(SignInStage::ImapSession, "x").body, "IMAP error: x");
    assert_eq!(sign_in_failure(SignInStage::StoreEmail, "x").body, "Email add to session error: x");
    assert_eq!(
        sign_in_failure(SignInStage::StorePassword, "x").body,
        "Password add to session error: x"
    );
    assert_eq!(
        sign_in_failure(SignInStage::StoreDomain, "").body,
        "Password add to session error: "
    );
}

#[test]
fn sign_in_and_out_replies() {
    let reply = sign_in_success();
    assert!(reply.authorized);
    assert_eq!(reply.body, "IMAP and SMTP sessions created");
    let reply = sign_out_reply(true);
    assert!(reply.authorized);
    assert_eq!(reply.body, "Successfully signed out");
    let reply = sign_out_reply(false);
    assert!(!reply.authorized);
    assert_eq!(reply.body, "Unauthorized signing out");
}

#[test]
fn form_fields_fill_the_message() {
    let mut email = EmailInDTO::new();
    assert_eq!(email.accept_field("to_address", "bob@example.org".to_string()), FormField::ToAddress);
    assert_eq!(email.accept_field("subject", "Hi".to_string()), FormField::Subject);
    assert_eq!(email.accept_field("body", "Hello Bob".to_string()), FormField::Body);
    assert_eq!(email.accept_field("cc", "eve@example.org".to_string()), FormField::Unknown);
    assert_eq!(email.accept_field("Subject", "Other".to_string()), FormField::Unknown);
    assert_eq!(
        email,
        EmailInDTO {
            to_address: "bob@example.org".to_string(),
            subject: "Hi".to_string(),
            body: "Hello Bob".to_string(),
        }
    );
    assert_eq!(email.accept_field("subject", "Again".to_string()), FormField::Subject);
    assert_eq!(email.subject, "Again");
    assert_eq!(email.body, "Hello Bob");
}

#[test]
fn form_field_names_are_matched_exactly() {
    assert_eq!(form_field("to_address"), FormField::ToAddress);
    assert_eq!(form_field("subject"), FormField::Subject);
    assert_eq!(form_field("body"), FormField::Body);
    assert_eq!(form_field("Body"), FormField::Unknown);
    assert_eq!(form_field(""), FormField::Unknown);
}

#[test]
fn sequence_set_is_top_colon_bottom() {
    let request = |top, bottom| EmailDeleteInDTO {
        mailbox_name: "INBOX".to_string(),
        sequence_set_top: top,
        sequence_set_bottom: bottom,
    };
    assert_eq!(request(5, 9).sequence_set(), "5:9");
    assert_eq!(request(120, 7).sequence_set(), "120:7");
    assert_eq!(request(0, u32::MAX).sequence_set(), "0:4294967295");
}

#[test]
fn mailbox_names_are_decoded() {
    assert_eq!(decode_mailbox_name(&"INBOX".to_string()), Some("INBOX".to_string()));
    assert_eq!(
        decode_mailbox_name(&"&BB4EQgQ,BEAEMAQyBDsENQQ9BD0ESwQ1-".to_string()),
        Some("Отправленные".to_string())
    );
    assert_eq!(decode_mailbox_name(&"Tom &- Jerry".to_string()), Some("Tom & Jerry".to_string()));
    assert_eq!(decode_mailbox_name(&"Entw&APw-rfe".to_string()), Some("Entwürfe".to_string()));
    assert_eq!(decode_mailbox_name(&"R&D".to_string()), Some("R&D".to_string()));
    assert_eq!(decode_mailbox_name(&String::new()), Some(String::new()));
}

#[test]
fn mailbox_names_with_a_broken_run_are_not_decoded() {
    for name in ["&!!!-", "&A-", "&AP-", "&APx-", "&&AP-", "a&b c-", "&AP=-", "x&é-"] {
        assert!(!is_decodable_name(name), "{name}");
        assert_eq!(decode_mailbox_name(&name.to_string()), None);
    }
}

#[test]
fn mailbox_names_with_whole_runs_are_decodable() {
    for name in ["&AAA-", "&AAAA-", "&APw-", "&APwA,A-", "a-b&-c", "&", "&AP", "é&APw-é", "-&-"] {
        assert!(is_decodable_name(name), "{name}");
        assert!(decode_mailbox_name(&name.to_string()).is_some());
    }
}

#[test]
fn mailboxes_that_cannot_be_opened_are_left_out() {
    let entries = vec![
        entry("INBOX", false),
        entry("[Gmail]", true),
        entry("[Gmail]/&BCcENQRABD0EPgQyBDgEOgQ4-", false),
        entry("&!!!-", true),
    ];
    let listed = selectable_mailboxes(&entries).expect("names are decodable");
    assert_eq!(listed.mailbox_names, vec!["INBOX".to_string(), "[Gmail]/Черновики".to_string()]);
}

#[test]
fn mailbox_list_fails_on_the_first_name_that_cannot_be_decoded() {
    let entries = vec![entry("INBOX", false), entry("&!!!-", true), entry("&A-", false), entry("&B-", false)];
    assert_eq!(selectable_mailboxes(&entries), Err(UndecodableName { index: 2 }));
    assert_eq!(selectable_mailboxes(&vec![]).map(|list| list.mailbox_names), Ok(vec![]));
}

#[test]
fn fetch_of_a_message_names_mailbox_number_and_items() {
    let command = detail_fetch(&EmailDetailInDTO {
        mailbox_name: "Отправленные".to_string(),
        sequence_number: 17,
    });
    assert_eq!(command.mailbox, "&BB4EQgQ,BEAEMAQyBDsENQQ9BD0ESwQ1-");
    assert_eq!(command.sequence_set, "17");
    assert_eq!(command.query, "(FLAGS BODYSTRUCTURE BODY[TEXT] ENVELOPE INTERNALDATE)");

    let command = attachment_fetch(&EmailAttachmentInDTO {
        mailbox_name: "INBOX".to_string(),
        sequence_number: 4294967295,
        attachment_name: "a.pdf".to_string(),
    });
    assert_eq!(command.mailbox, "INBOX");
    assert_eq!(command.sequence_set, "4294967295");
    assert_eq!(command.query, "(FLAGS BODYSTRUCTURE BODY[TEXT] ENVELOPE INTERNALDATE)");
}

#[test]
fn fetch_of_a_page_names_the_window() {
    let request = EmailListInDTO {
        requested_page_number: 2,
        page_size: 20,
        mailbox_name: "Tom & Jerry".to_string(),
    };
    assert_eq!(listing_mailbox(&request), "Tom &- Jerry");
    let command = listing_fetch(100, &request).expect("mailbox is not empty");
    assert_eq!(command.mailbox, "Tom &- Jerry");
    assert_eq!(command.sequence_set, "39:60");
    assert_eq!(
        command.query,
        "(FLAGS BODYSTRUCTURE BODY[TEXT] RFC822.SIZE ENVELOPE INTERNALDATE)"
    );
    assert_eq!(listing_fetch(0, &request), None);
}

#[test]
fn delete_marks_the_run_as_deleted() {
    let command = delete_store(&EmailDeleteInDTO {
        mailbox_name: "INBOX".to_string(),
        sequence_set_top: 3,
        sequence_set_bottom: 8,
    });
    assert_eq!(command.mailbox, "INBOX");
    assert_eq!(command.sequence_set, "3:8");
    assert_eq!(command.query, "+FLAGS (\\Deleted)");
}

#[test]
fn staged_file_gets_place_and_content_type_by_its_name() {
    let file = stage_file("invoice.pdf");
    assert_eq!(file.path, "./tmp/invoice.pdf");
    assert_eq!(file.name, "invoice.pdf");
    assert_eq!(file.content_type, "application/pdf");
    assert_eq!(stage_file("notes").content_type, "application/octet-stream");
    assert_eq!(stage_file("photo.JPG").content_type, "image/jpeg");
    assert_eq!(staging_path(""), "./tmp/");
}

#[test]
fn every_short_name_is_decoded_or_turned_away() {
    let alphabet = ['&', '-', 'A', 'B', 'Q', 'g', 'w', '=', ',', '/', '+', 'é'];
    let mut names = vec![String::new()];
    let mut decoded = 0;
    let mut turned_away = 0;
    for _ in 0..4 {
        let mut longer = Vec::new();
        for name in &names {
            for symbol in alphabet {
                let mut next = name.clone();
                next.push(symbol);
                longer.push(next);
            }
        }
        for name in &longer {
            match decode_mailbox_name(name) {
                Some(_) => decoded += 1,
                None => turned_away += 1,
            }
        }
        names = longer;
    }
    assert_eq!(decoded + turned_away, 12 + 144 + 1728 + 20736);
    assert!(turned_away > 0);
    assert!(decoded > turned_away);
}

#[test]
fn every_short_run_is_decoded_or_turned_away() {
    let alphabet = [
        'A', 'B', 'C', 'D', 'E', 'Q', 'R', 'g', 'h', 'w', 'x', '0', '4', '8', '9', '+', '/', ',',
        '=', '!',
    ];
    let mut runs = vec![String::new()];
    let mut decoded = 0;
    for _ in 0..3 {
        let mut longer = Vec::new();
        for run in &runs {
            for symbol in alphabet {
                let mut next = run.clone();
                next.push(symbol);
                longer.push(next);
            }
        }
        for run in &longer {
            let name = format!("box &{run}- end");
            if let Some(text) = decode_mailbox_name(&name) {
                assert!(text.starts_with("box "));
                assert!(text.ends_with(" end"));
                decoded += 1;
            }
        }
        runs = longer;
    }
    assert_eq!(decoded, 18 * 4 + 18 * 18 * 8);
}
