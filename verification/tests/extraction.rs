use apple_notes_exporter_rs::extract::{plan_extraction, to_extraction_result};
use apple_notes_exporter_rs::ExportError;
use base64::Engine;

fn encode(bytes: &[u8]) -> String {
    base64::prelude::BASE64_STANDARD.encode(bytes)
}

const PNG_BYTES: &[u8] = &[0x89, 0x50, 0x4E, 0x47, 0x0D, 0x0A, 0x1A, 0x0A, 1, 2, 3, 4, 5];

#[test]
fn round_trip_single_png() {
    let payload = encode(PNG_BYTES);
    let html = format!(
        "<html><body><p>hi</p><img src=\"data:image/png;base64,{payload}\"></body></html>"
    );
    let plan = plan_extraction("notes", "My Note", &html).unwrap();
    assert_eq!(plan.attachments.len(), 1);
    let a = &plan.attachments[0];
    assert_eq!(a.data, PNG_BYTES);
    assert_eq!(a.mime_type, "image/png");
    assert_eq!(a.relative_path, "My Note-attachments/attachment-001.png");
    assert_eq!(a.path, "notes/My Note-attachments/attachment-001.png");
    assert_eq!(a.original_data_url, format!("data:image/png;base64,{payload}"));
    assert_eq!(plan.attachments_dir, "notes/My Note-attachments");
    assert!(plan.html_modified);
    assert!(plan.rewritten_html.contains("My Note-attachments/attachment-001.png"));
    assert!(!plan.rewritten_html.contains("data:image/png"));
}

#[test]
fn duplicate_references_get_distinct_files() {
    let payload = encode(&[7, 7, 7]);
    let url = format!("data:image/gif;base64,{payload}");
    let html = format!("<html><body><img src=\"{url}\"><img src=\"{url}\"></body></html>");
    let plan = plan_extraction(".", "Twins", &html).unwrap();
    assert_eq!(plan.attachments.len(), 2);
    assert_eq!(plan.attachments[0].relative_path, "Twins-attachments/attachment-001.gif");
    assert_eq!(plan.attachments[1].relative_path, "Twins-attachments/attachment-002.gif");
    assert_ne!(plan.attachments[0].path, plan.attachments[1].path);
    // Each occurrence points at its own file, in document order.
    let first = plan.rewritten_html.find("Twins-attachments/attachment-001.gif").unwrap();
    let second = plan.rewritten_html.find("Twins-attachments/attachment-002.gif").unwrap();
    assert!(first < second);
    assert!(!plan.rewritten_html.contains("data:image/gif"));
}

#[test]
fn non_matching_references_pass_through() {
    let html = "<html><body>\
                <img src=\"https://example.com/cat.png\">\
                <img src=\"cat.jpg\">\
                <img alt=\"no source\">\
                </body></html>";
    let plan = plan_extraction(".", "Plain", html).unwrap();
    assert_eq!(plan.attachments.len(), 0);
    assert!(!plan.html_modified);
    assert_eq!(plan.rewritten_html, html);
}

#[test]
fn extraction_is_idempotent() {
    let payload = encode(&[1, 2, 3]);
    let html = format!("<html><body><img src=\"data:image/png;base64,{payload}\"></body></html>");
    let first = plan_extraction(".", "Note", &html).unwrap();
    assert!(first.html_modified);
    let second = plan_extraction(".", "Note", &first.rewritten_html).unwrap();
    assert_eq!(second.attachments.len(), 0);
    assert!(!second.html_modified);
    assert_eq!(second.rewritten_html, first.rewritten_html);
}

#[test]
fn unknown_media_type_stored_as_bin() {
    let payload = encode(b"custom bytes");
    let html = format!("<html><body><img src=\"data:image/x-custom;base64,{payload}\"></body></html>");
    let plan = plan_extraction(".", "Odd", &html).unwrap();
    assert_eq!(plan.attachments.len(), 1);
    assert_eq!(plan.attachments[0].mime_type, "image/x-custom");
    assert_eq!(plan.attachments[0].relative_path, "Odd-attachments/attachment-001.bin");
    assert_eq!(plan.attachments[0].data, b"custom bytes");
}

#[test]
fn malformed_payload_fails_whole_document() {
    let good = encode(&[9, 9]);
    let html = format!(
        "<html><body>\
         <img src=\"data:image/png;base64,{good}\">\
         <img src=\"data:image/png;base64,!!!not-base64!!!\">\
         </body></html>"
    );
    let result = plan_extraction(".", "Broken", &html);
    assert!(matches!(result, Err(ExportError::Base64DecodeError(_))));
}

#[test]
fn mixed_documents_number_across_media_types() {
    let pay_a = encode(&[1]);
    let pay_b = encode(&[2]);
    let pay_c = encode(&[3]);
    let html = format!(
        "<html><body>\
         <img src=\"data:image/png;base64,{pay_a}\">\
         <img src=\"https://example.com/skip.png\">\
         <img src=\"data:image/jpeg;base64,{pay_b}\">\
         <img src=\"data:image/svg+xml;base64,{pay_c}\">\
         </body></html>"
    );
    let plan = plan_extraction("out", "Mixed", &html).unwrap();
    assert_eq!(plan.attachments.len(), 3);
    assert_eq!(plan.attachments[0].relative_path, "Mixed-attachments/attachment-001.png");
    assert_eq!(plan.attachments[1].relative_path, "Mixed-attachments/attachment-002.jpg");
    assert_eq!(plan.attachments[2].relative_path, "Mixed-attachments/attachment-003.svg");
}

#[test]
fn payload_without_base64_parameter_still_decodes() {
    let payload = encode(&[42, 43]);
    let html = format!("<html><body><img src=\"data:image/png,{payload}\"></body></html>");
    let plan = plan_extraction(".", "Bare", &html).unwrap();
    assert_eq!(plan.attachments.len(), 1);
    assert_eq!(plan.attachments[0].mime_type, "image/png");
    assert_eq!(plan.attachments[0].data, vec![42, 43]);
}

#[test]
fn data_url_without_comma_is_ignored() {
    let html = "<html><body><img src=\"data:image/png\"></body></html>";
    let plan = plan_extraction(".", "NoComma", html).unwrap();
    assert_eq!(plan.attachments.len(), 0);
    assert!(!plan.html_modified);
}

#[test]
fn declared_media_type_is_stored_lower_cased() {
    let payload = encode(&[1, 2]);
    let html = format!("<html><body><img src=\"data:image/PNG;base64,{payload}\"></body></html>");
    let plan = plan_extraction(".", "Shout", &html).unwrap();
    assert_eq!(plan.attachments.len(), 1);
    // The stored media type is the lower-cased token; the extension table
    // reads the raw token, which it does not know.
    assert_eq!(plan.attachments[0].mime_type, "image/png");
    assert_eq!(plan.attachments[0].relative_path, "Shout-attachments/attachment-001.bin");
}

#[test]
fn occurrence_outside_an_attribute_is_swept_too() {
    let payload = encode(&[3, 1, 4]);
    let url = format!("data:image/png;base64,{payload}");
    let html = format!("<html><body><p>{url}</p><img src=\"{url}\"></body></html>");
    let plan = plan_extraction(".", "Inline", &html).unwrap();
    assert_eq!(plan.attachments.len(), 1);
    assert!(!plan.rewritten_html.contains(&url));
    assert_eq!(plan.rewritten_html.matches("Inline-attachments/attachment-001.png").count(), 2);
    // A second run finds nothing left to extract.
    let second = plan_extraction(".", "Inline", &plan.rewritten_html).unwrap();
    assert_eq!(second.attachments.len(), 0);
    assert!(!second.html_modified);
    assert_eq!(second.rewritten_html, plan.rewritten_html);
}

#[test]
fn swept_leftovers_take_the_first_duplicate_path() {
    let payload = encode(&[8, 8]);
    let url = format!("data:image/gif;base64,{payload}");
    let html = format!("<html><body><img src=\"{url}\"><img src=\"{url}\"><p>{url}</p></body></html>");
    let plan = plan_extraction(".", "Three", &html).unwrap();
    assert_eq!(plan.attachments.len(), 2);
    assert!(!plan.rewritten_html.contains(&url));
    // The matched occurrences keep their own numbers; the leftover in text
    // content takes the first attachment's path.
    assert_eq!(plan.rewritten_html.matches("Three-attachments/attachment-001.gif").count(), 2);
    assert_eq!(plan.rewritten_html.matches("Three-attachments/attachment-002.gif").count(), 1);
}

#[test]
fn empty_document_passes_through() {
    let plan = plan_extraction(".", "Empty", "").unwrap();
    assert_eq!(plan.attachments.len(), 0);
    assert!(!plan.html_modified);
    assert_eq!(plan.rewritten_html, "");
}

#[test]
fn fourth_attachment_continues_numbering() {
    let mut html = String::from("<html><body>");
    for byte in 0u8..4 {
        let payload = encode(&[byte]);
        html.push_str(&format!("<img src=\"data:image/bmp;base64,{payload}\">"));
    }
    html.push_str("</body></html>");
    let plan = plan_extraction(".", "Many", &html).unwrap();
    assert_eq!(plan.attachments.len(), 4);
    assert_eq!(plan.attachments[3].relative_path, "Many-attachments/attachment-004.bmp");
}

#[test]
fn extraction_result_mirrors_plan() {
    let payload = encode(&[5, 6]);
    let html = format!("<html><body><img src=\"data:image/webp;base64,{payload}\"></body></html>");
    let plan = plan_extraction("root", "Doc", &html).unwrap();
    let result = to_extraction_result("root/Doc.html", &plan);
    assert_eq!(result.html_path, "root/Doc.html");
    assert!(result.html_modified);
    assert_eq!(result.attachments.len(), 1);
    assert_eq!(result.attachments[0].path, "root/Doc-attachments/attachment-001.webp");
    assert_eq!(result.attachments[0].mime_type, "image/webp");
    assert_eq!(
        result.attachments[0].original_data_url,
        format!("data:image/webp;base64,{payload}")
    );
}
