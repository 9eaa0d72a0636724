use apple_notes_exporter_rs::cli::{ensure_script_exists, run, script_failed_message, CliCommand};
use apple_notes_exporter_rs::codec::split_data_url;
use apple_notes_exporter_rs::extension::extension_for;
use apple_notes_exporter_rs::folder_specifier;
use apple_notes_exporter_rs::text::{
    decimal_string, replace_all, replace_first, to_ascii_lower, zero_padded3_string,
};
use apple_notes_exporter_rs::walk::{classify_entry, html_file_stem, EntryAction};

#[test]
fn codec_splits_media_type_and_payload() {
    let parts = split_data_url("data:image/png;base64,iVBORw0KGgo=").unwrap();
    assert_eq!(parts.media_type, "image/png");
    assert_eq!(parts.payload, "iVBORw0KGgo=");
}

#[test]
fn codec_reports_the_declared_token_verbatim() {
    let parts = split_data_url("data:image/PNG;base64,AA==").unwrap();
    assert_eq!(parts.media_type, "image/PNG");
}

#[test]
fn codec_handles_missing_parameters() {
    let parts = split_data_url("data:image/gif,R0lGOD=").unwrap();
    assert_eq!(parts.media_type, "image/gif");
    assert_eq!(parts.payload, "R0lGOD=");
}

#[test]
fn codec_rejects_non_data_urls() {
    assert!(split_data_url("https://example.com/a.png").is_none());
    assert!(split_data_url("data:text/plain;base64,aGk=").is_none());
    assert!(split_data_url("data:image/png").is_none());
    assert!(split_data_url("").is_none());
}

#[test]
fn extension_table_is_exact() {
    assert_eq!(extension_for("image/png"), "png");
    assert_eq!(extension_for("image/jpeg"), "jpg");
    assert_eq!(extension_for("image/jpg"), "jpg");
    assert_eq!(extension_for("image/gif"), "gif");
    assert_eq!(extension_for("image/webp"), "webp");
    assert_eq!(extension_for("image/svg+xml"), "svg");
    assert_eq!(extension_for("image/bmp"), "bmp");
    assert_eq!(extension_for("image/tiff"), "tiff");
    assert_eq!(extension_for("image/x-custom"), "bin");
    assert_eq!(extension_for("application/pdf"), "bin");
    assert_eq!(extension_for("image/PNG"), "bin");
}

#[test]
fn walk_skips_attachment_directories() {
    assert_eq!(classify_entry("Note-attachments", true), EntryAction::SkipAttachmentsDir);
    assert_eq!(classify_entry("Notes", true), EntryAction::Descend);
    assert_eq!(classify_entry("Note.html", false), EntryAction::ProcessHtml);
    assert_eq!(classify_entry("leftover.html", false), EntryAction::ProcessHtml);
    assert_eq!(classify_entry("readme.txt", false), EntryAction::Ignore);
    assert_eq!(classify_entry("Note.HTML", false), EntryAction::Ignore);
    assert_eq!(classify_entry(".html", false), EntryAction::Ignore);
    // A file named like an attachments directory is still just a file.
    assert_eq!(classify_entry("Note-attachments", false), EntryAction::Ignore);
}

#[test]
fn html_stem_drops_only_the_extension() {
    assert_eq!(html_file_stem("My Note -- abc123.html"), "My Note -- abc123");
    assert_eq!(html_file_stem("a.html"), "a");
    assert_eq!(html_file_stem("a.b.html"), "a.b");
}

#[test]
fn replace_first_touches_only_the_first_occurrence() {
    assert_eq!(replace_first("aXbXc", "X", "_"), "a_bXc");
    assert_eq!(replace_first("abc", "zzz", "_"), "abc");
    assert_eq!(replace_first("abc", "abc", ""), "");
    assert_eq!(replace_first("ababab", "ab", "ba"), "baabab");
}

#[test]
fn replace_all_touches_every_occurrence() {
    assert_eq!(replace_all("aXbXcX", "X", "_"), "a_b_c_");
    assert_eq!(replace_all("abc", "zzz", "_"), "abc");
    assert_eq!(replace_all("XX", "X", "XY"), "XYXY");
    // Left-to-right, without rescanning inserted text: the same semantics
    // as a textual global replace.
    assert_eq!(replace_all("aab", "ab", "bX"), "abX");
    assert_eq!("aab".replace("ab", "bX"), "abX");
}

#[test]
fn lower_casing_touches_only_ascii_uppercase() {
    assert_eq!(to_ascii_lower("Image/PNG"), "image/png");
    assert_eq!(to_ascii_lower("image/svg+xml"), "image/svg+xml");
    assert_eq!(to_ascii_lower(""), "");
    assert_eq!(to_ascii_lower("A-Z az 09 /;,"), "a-z az 09 /;,");
}

#[test]
fn sequence_numbers_are_zero_padded() {
    assert_eq!(zero_padded3_string(1), "001");
    assert_eq!(zero_padded3_string(42), "042");
    assert_eq!(zero_padded3_string(999), "999");
    assert_eq!(zero_padded3_string(1000), "1000");
    assert_eq!(decimal_string(0), "0");
    assert_eq!(decimal_string(90210), "90210");
}

#[test]
fn cli_builds_script_invocations() {
    let list_args = run(&CliCommand::List, "export_notes.applescript");
    assert_eq!(list_args, vec!["export_notes.applescript", "list"]);
    let export_args = run(
        &CliCommand::Export {
            folder: "iCloud:Work".to_owned(),
            output_dir: "./exports".to_owned(),
        },
        "export_notes.applescript",
    );
    assert_eq!(
        export_args,
        vec!["export_notes.applescript", "export", "iCloud:Work", "./exports"]
    );
}

#[test]
fn cli_reports_missing_script() {
    assert!(ensure_script_exists("s.applescript", true).is_ok());
    let err = ensure_script_exists("s.applescript", false).unwrap_err();
    assert_eq!(err, "AppleScript not found at s.applescript");
}

#[test]
fn cli_formats_exit_status() {
    assert_eq!(script_failed_message(1), "AppleScript exited with status 1");
    assert_eq!(script_failed_message(-1), "AppleScript exited with status -1");
    assert_eq!(script_failed_message(0), "AppleScript exited with status 0");
}

#[test]
fn folder_specifier_joins_account_and_folder() {
    assert_eq!(folder_specifier("iCloud", "Work"), "iCloud:Work");
    assert_eq!(folder_specifier("", "Notes"), ":Notes");
}
