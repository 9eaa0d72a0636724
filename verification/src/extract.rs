//! Single-document extractor: locates every inline-embedded image reference
//! of one HTML document, decodes each payload, assigns sequence numbers and
//! target paths, and produces the rewritten document text. Writing the
//! decoded bytes and the rewritten text to disk is the caller's part.

use crate::codec::{
    base64_decoded, decode_base64, is_embedded_image_ref, media_type_of, payload_of,
    split_data_url,
};
use crate::extension::{extension_for, extension_spec};
use crate::text::{
    ascii_lower, replace_all, replace_all_spec, replace_first, replace_first_spec, to_ascii_lower,
    zero_padded3, zero_padded3_string,
};
use crate::text::{
    decimal_value, is_digit_char, lemma_zero_padded3_digits, lemma_zero_padded3_value,
};
use crate::ExportError;
use vstd::prelude::*;

verus! {

// ---------------------------------------------------------------------------
// Result model
// ---------------------------------------------------------------------------

/// Information about one extracted attachment.
#[derive(Debug, Clone)]
pub struct ExtractedAttachment {
    /// The file path where the attachment is saved.
    pub path: String,
    /// The original data URL that was replaced.
    pub original_data_url: String,
    /// The declared media type of the attachment, in lower-cased token
    /// form (e.g. `image/png`), independent of the decoded content.
    pub mime_type: String,
}

/// Result of extracting attachments from one HTML document.
#[derive(Debug)]
pub struct ExtractionResult {
    /// The HTML file that was processed.
    pub html_path: String,
    /// The attachments that were extracted, in document order.
    pub attachments: Vec<ExtractedAttachment>,
    /// Whether the HTML document was rewritten.
    pub html_modified: bool,
}

/// One attachment that a document extraction produces: its target paths,
/// its decoded bytes, and the reference it replaces.
pub struct PlannedAttachment {
    /// Target path of the decoded bytes: the attachments directory inside
    /// the document's parent directory, then the numbered file name.
    pub path: String,
    /// The replacement text within the document: the target path relative
    /// to the document's own directory, forward-slash separated.
    pub relative_path: String,
    /// The original data URL that the attachment replaces.
    pub original_data_url: String,
    /// The declared media type of the attachment, in lower-cased token
    /// form.
    pub mime_type: String,
    /// The decoded payload bytes.
    pub data: Vec<u8>,
}

/// Everything a document extraction decides: the attachments with their
/// decoded bytes and target paths, and the rewritten document text.
pub struct DocumentPlan {
    /// The attachments, ordered by first appearance in the document.
    pub attachments: Vec<PlannedAttachment>,
    /// The document text with each matched reference replaced by its
    /// attachment's relative path.
    pub rewritten_html: String,
    /// Whether the document text changed: true exactly when at least one
    /// attachment was extracted.
    pub html_modified: bool,
    /// The attachments directory, sibling to the document: it is created
    /// only when at least one attachment was extracted.
    pub attachments_dir: String,
}

// ---------------------------------------------------------------------------
// Naming convention
// ---------------------------------------------------------------------------

/// The name of the attachments directory that belongs to a document with
/// the given file stem.
pub open spec fn attachments_dir_name(stem: Seq<char>) -> Seq<char> {
    stem + "-attachments"@
}

/// The file name of the `n`-th attachment of one document: a 1-based,
/// zero-padded-to-3-digits sequence number shared across media types.
pub open spec fn attachment_file_name(n: nat, ext: Seq<char>) -> Seq<char> {
    "attachment-"@ + zero_padded3(n) + seq!['.'] + ext
}

/// The replacement text for the `n`-th matched reference of a document
/// with the given stem and declared media type: the attachment's path
/// relative to the document's directory, forward-slash separated.
pub open spec fn replacement_path(stem: Seq<char>, n: nat, media_type: Seq<char>) -> Seq<char> {
    attachments_dir_name(stem) + seq!['/'] + attachment_file_name(n, extension_spec(media_type))
}

// ---------------------------------------------------------------------------
// Locating the references
// ---------------------------------------------------------------------------

/// The `src` attribute values of the `img` elements of the HTML document
/// `html`, in document order. The parse is done by an outside HTML parser;
/// this name stands for its result, which depends on the document text
/// alone.
pub uninterp spec fn image_srcs_of(html: Seq<char>) -> Seq<Seq<char>>;

/// Relies on scraper's `Html::parse_document` and `Selector::parse("img")`:
/// collects the `src` attribute value of every `img` element of the
/// document, in document order, skipping elements without one. The parse
/// and the selection are functions of the document text alone.
#[verifier::external_body]
fn collect_image_srcs(html: &str) -> (r: Vec<String>)
    ensures
        r.deep_view() == image_srcs_of(html@),
{
    let document = scraper::Html::parse_document(html);
    let selector = scraper::Selector::parse("img").unwrap();
    let mut srcs = Vec::new();
    for element in document.select(&selector) {
        if let Some(src) = element.value().attr("src") {
            srcs.push(src.to_owned());
        }
    }
    srcs
}

/// The subsequence of `srcs` that are inline-embedded image references,
/// in order.
pub open spec fn matched_refs(srcs: Seq<Seq<char>>) -> Seq<Seq<char>>
    decreases srcs.len(),
{
    if srcs.len() == 0 {
        Seq::empty()
    } else if is_embedded_image_ref(srcs.last()) {
        matched_refs(srcs.drop_last()).push(srcs.last())
    } else {
        matched_refs(srcs.drop_last())
    }
}

/// Every matched reference in `ms` carries a payload that decodes.
pub open spec fn all_payloads_decode(ms: Seq<Seq<char>>) -> bool {
    forall|i: int| 0 <= i < ms.len() ==> base64_decoded(payload_of(#[trigger] ms[i])) is Some
}

/// The document text after the first `k` matched references have received
/// their numbers: the `n`-th replacement touches only the first remaining
/// occurrence of its reference text, so duplicated references receive
/// distinct paths.
pub open spec fn rewritten_upto(
    html: Seq<char>,
    stem: Seq<char>,
    ms: Seq<Seq<char>>,
    k: int,
) -> Seq<char>
    decreases k,
{
    if k <= 0 {
        html
    } else {
        replace_first_spec(
            rewritten_upto(html, stem, ms, k - 1),
            ms[k - 1],
            replacement_path(stem, k as nat, media_type_of(ms[k - 1])),
        )
    }
}

/// The document text after the sweep that follows the numbering pass: the
/// first `k` attachments have had every remaining literal occurrence of
/// their reference text replaced by their own path, in order. A reference
/// that also appears outside any matched attribute — say, in visible text
/// content — is thereby replaced too, with the path of the first
/// attachment that carries that reference text.
pub open spec fn swept_upto(
    text: Seq<char>,
    stem: Seq<char>,
    ms: Seq<Seq<char>>,
    k: int,
) -> Seq<char>
    decreases k,
{
    if k <= 0 {
        text
    } else {
        replace_all_spec(
            swept_upto(text, stem, ms, k - 1),
            ms[k - 1],
            replacement_path(stem, k as nat, media_type_of(ms[k - 1])),
        )
    }
}

/// The fully rewritten document text: first each matched reference is
/// replaced once, in order, with its own numbered path; then every
/// remaining literal occurrence of each matched reference text is swept
/// away with that reference's path.
pub open spec fn rewritten_document(html: Seq<char>, stem: Seq<char>, ms: Seq<Seq<char>>) -> Seq<
    char,
> {
    swept_upto(rewritten_upto(html, stem, ms, ms.len() as int), stem, ms, ms.len() as int)
}

// ---------------------------------------------------------------------------
// Lemmas
// ---------------------------------------------------------------------------

/// The matched references of a prefix of `srcs` are a prefix of the
/// matched references of `srcs`.
proof fn lemma_matched_refs_take_prefix(srcs: Seq<Seq<char>>, i: int)
    requires
        0 <= i <= srcs.len(),
    ensures
        matched_refs(srcs.take(i)).len() <= matched_refs(srcs).len(),
        forall|j: int|
            0 <= j < matched_refs(srcs.take(i)).len() ==> #[trigger] matched_refs(srcs.take(i))[j]
                == matched_refs(srcs)[j],
    decreases srcs.len() - i,
{
    if i == srcs.len() {
        assert(srcs.take(i) =~= srcs);
    } else {
        lemma_matched_refs_take_prefix(srcs, i + 1);
        let mi = matched_refs(srcs.take(i));
        let mi1 = matched_refs(srcs.take(i + 1));
        assert(srcs.take(i + 1).drop_last() =~= srcs.take(i));
        assert(srcs.take(i + 1).last() == srcs[i]);
        assert(mi1 == mi.push(srcs[i]) || mi1 == mi);
        assert forall|j: int| 0 <= j < mi.len() implies mi[j] == matched_refs(srcs)[j] by {
            assert(mi1[j] == matched_refs(srcs)[j]);
            assert(mi[j] == mi1[j]);
        }
    }
}

/// `rewritten_upto` depends only on the first `k` matched references.
proof fn lemma_rewritten_upto_prefix(
    html: Seq<char>,
    stem: Seq<char>,
    ms1: Seq<Seq<char>>,
    ms2: Seq<Seq<char>>,
    k: int,
)
    requires
        0 <= k <= ms1.len(),
        k <= ms2.len(),
        forall|j: int| 0 <= j < k ==> ms1[j] == ms2[j],
    ensures
        rewritten_upto(html, stem, ms1, k) == rewritten_upto(html, stem, ms2, k),
    decreases k,
{
    if k > 0 {
        lemma_rewritten_upto_prefix(html, stem, ms1, ms2, k - 1);
    }
}

// ---------------------------------------------------------------------------
// The extractor
// ---------------------------------------------------------------------------

/// Processes the text of one HTML document: finds every inline-embedded
/// image reference in document order, decodes each payload, assigns each a
/// 1-based zero-padded sequence number and the target path
/// `<parent_dir>/<stem>-attachments/attachment-<NNN>.<ext>`, and replaces
/// every literal occurrence of each matched reference in the text — first
/// one occurrence per match, in order, so that duplicated references
/// receive their own numbers, then every remaining occurrence. A single
/// malformed payload fails the whole document; a document without matches
/// is returned unchanged.
pub fn plan_extraction(parent_dir: &str, stem: &str, html: &str) -> (r: Result<
    DocumentPlan,
    ExportError,
>)
    ensures
        ({
            let ms = matched_refs(image_srcs_of(html@));
            &&& r is Ok <==> all_payloads_decode(ms)
            &&& r matches Err(e) ==> e is Base64DecodeError
            &&& r matches Ok(p) ==> {
                &&& p.attachments@.len() == ms.len()
                &&& forall|i: int|
                    0 <= i < ms.len() ==> {
                        let a = #[trigger] p.attachments@[i];
                        &&& a.original_data_url@ == ms[i]
                        &&& a.mime_type@ == ascii_lower(media_type_of(ms[i]))
                        &&& a.data@ == base64_decoded(payload_of(ms[i]))->0
                        &&& a.relative_path@ == replacement_path(
                            stem@,
                            (i + 1) as nat,
                            media_type_of(ms[i]),
                        )
                        &&& a.path@ == parent_dir@ + seq!['/'] + a.relative_path@
                    }
                &&& forall|i: int, j: int|
                    0 <= i < ms.len() && 0 <= j < ms.len() && i != j
                        ==> #[trigger] p.attachments@[i].relative_path@ != #[trigger] p.attachments@[j].relative_path@
                        && p.attachments@[i].path@ != p.attachments@[j].path@
                &&& p.rewritten_html@ == rewritten_document(html@, stem@, ms)
                &&& p.html_modified == (ms.len() > 0)
                &&& p.attachments_dir@ == parent_dir@ + seq!['/'] + attachments_dir_name(stem@)
                &&& ms.len() == 0 ==> p.rewritten_html@ == html@
            }
        }),
{
    let srcs = collect_image_srcs(html);
    let src_count = srcs.len();
    let mut attachments: Vec<PlannedAttachment> = Vec::new();
    let mut rewritten: String = html.to_owned();
    let mut dir_rel: String = stem.to_owned();
    dir_rel.append("-attachments");
    let mut dir_abs: String = parent_dir.to_owned();
    dir_abs.append("/");
    dir_abs.append(dir_rel.as_str());
    proof {
        reveal_strlit("/");
        reveal_strlit(".");
        assert(rewritten_upto(html@, stem@, matched_refs(image_srcs_of(html@).take(0)), 0)
            == html@);
        assert(image_srcs_of(html@).take(0) =~= Seq::<Seq<char>>::empty());
    }
    let mut idx: usize = 0;
    while idx < src_count
        invariant
            src_count == srcs@.len(),
            srcs.deep_view() == image_srcs_of(html@),
            0 <= idx <= src_count,
            ({
                let ms = matched_refs(image_srcs_of(html@).take(idx as int));
                &&& attachments@.len() == ms.len()
                &&& ms.len() <= idx
                &&& all_payloads_decode(ms)
                &&& forall|i: int|
                    0 <= i < ms.len() ==> {
                        let a = #[trigger] attachments@[i];
                        &&& a.original_data_url@ == ms[i]
                        &&& a.mime_type@ == ascii_lower(media_type_of(ms[i]))
                        &&& a.data@ == base64_decoded(payload_of(ms[i]))->0
                        &&& a.relative_path@ == replacement_path(
                            stem@,
                            (i + 1) as nat,
                            media_type_of(ms[i]),
                        )
                        &&& a.path@ == parent_dir@ + seq!['/'] + a.relative_path@
                    }
                &&& rewritten@ == rewritten_upto(html@, stem@, ms, ms.len() as int)
            }),
            dir_rel@ == attachments_dir_name(stem@),
            dir_abs@ == parent_dir@ + seq!['/'] + attachments_dir_name(stem@),
        decreases src_count - idx,
    {
        let ghost prev_ms = matched_refs(image_srcs_of(html@).take(idx as int));
        proof {
            assert(image_srcs_of(html@).take(idx + 1).drop_last() =~= image_srcs_of(
                html@,
            ).take(idx as int));
            assert(image_srcs_of(html@).take(idx + 1).last() == srcs.deep_view()[idx as int]);
        }
        let src = &srcs[idx];
        match split_data_url(src.as_str()) {
            None => {
                proof {
                    assert(matched_refs(image_srcs_of(html@).take(idx + 1)) == prev_ms);
                }
            },
            Some(parts) => {
                let ghost ms = prev_ms.push(src@);
                proof {
                    assert(matched_refs(image_srcs_of(html@).take(idx + 1)) == ms);
                    lemma_rewritten_upto_prefix(html@, stem@, prev_ms, ms, prev_ms.len() as int);
                }
                let data = match decode_base64(parts.payload.as_str()) {
                    Ok(data) => data,
                    Err(e) => {
                        proof {
                            let all = matched_refs(image_srcs_of(html@));
                            lemma_matched_refs_take_prefix(image_srcs_of(html@), idx + 1);
                            assert(ms[ms.len() - 1] == src@);
                            assert(all[ms.len() - 1] == src@);
                            assert(!all_payloads_decode(all));
                        }
                        return Err(e);
                    },
                };
                let number = attachments.len() + 1;
                let ext = extension_for(parts.media_type.as_str());
                let mime_lower = to_ascii_lower(parts.media_type.as_str());
                let padded = zero_padded3_string(number);
                let mut file_name: String = "attachment-".to_owned();
                file_name.append(padded.as_str());
                file_name.append(".");
                file_name.append(ext);
                let mut rel: String = dir_rel.clone();
                rel.append("/");
                rel.append(file_name.as_str());
                let mut abs: String = parent_dir.to_owned();
                abs.append("/");
                abs.append(rel.as_str());
                proof {
                    reveal_strlit("/");
                    reveal_strlit(".");
                    assert(file_name@ =~= attachment_file_name(
                        number as nat,
                        extension_spec(media_type_of(src@)),
                    ));
                    assert(rel@ =~= replacement_path(
                        stem@,
                        number as nat,
                        media_type_of(src@),
                    ));
                }
                let new_rewritten = replace_first(rewritten.as_str(), src.as_str(), rel.as_str());
                rewritten = new_rewritten;
                attachments.push(
                    PlannedAttachment {
                        path: abs,
                        relative_path: rel,
                        original_data_url: src.clone(),
                        mime_type: mime_lower,
                        data,
                    },
                );
            },
        }
        idx += 1;
    }
    proof {
        assert(image_srcs_of(html@).take(src_count as int) =~= image_srcs_of(html@));
    }
    let ghost numbered = rewritten@;
    let attachment_count = attachments.len();
    let mut k: usize = 0;
    while k < attachment_count
        invariant
            attachment_count == attachments@.len(),
            0 <= k <= attachment_count,
            ({
                let ms = matched_refs(image_srcs_of(html@));
                &&& attachments@.len() == ms.len()
                &&& all_payloads_decode(ms)
                &&& forall|i: int|
                    0 <= i < ms.len() ==> {
                        let a = #[trigger] attachments@[i];
                        &&& a.original_data_url@ == ms[i]
                        &&& a.mime_type@ == ascii_lower(media_type_of(ms[i]))
                        &&& a.data@ == base64_decoded(payload_of(ms[i]))->0
                        &&& a.relative_path@ == replacement_path(
                            stem@,
                            (i + 1) as nat,
                            media_type_of(ms[i]),
                        )
                        &&& a.path@ == parent_dir@ + seq!['/'] + a.relative_path@
                    }
                &&& numbered == rewritten_upto(html@, stem@, ms, ms.len() as int)
                &&& rewritten@ == swept_upto(numbered, stem@, ms, k as int)
            }),
        decreases attachment_count - k,
    {
        let new_rewritten = replace_all(
            rewritten.as_str(),
            attachments[k].original_data_url.as_str(),
            attachments[k].relative_path.as_str(),
        );
        rewritten = new_rewritten;
        k += 1;
    }
    proof {
        let ms = matched_refs(image_srcs_of(html@));
        assert forall|i: int, j: int|
            0 <= i < ms.len() && 0 <= j < ms.len() && i != j
                implies #[trigger] attachments@[i].relative_path@
                != #[trigger] attachments@[j].relative_path@ && attachments@[i].path@
                != attachments@[j].path@ by {
            lemma_replacement_paths_distinct(
                stem@,
                (i + 1) as nat,
                (j + 1) as nat,
                media_type_of(ms[i]),
                media_type_of(ms[j]),
            );
            let pi = attachments@[i].path@;
            let pj = attachments@[j].path@;
            let sep = parent_dir@.len() + 1;
            if pi == pj {
                assert(attachments@[i].relative_path@ =~= pi.subrange(sep as int, pi.len() as int));
                assert(attachments@[j].relative_path@ =~= pj.subrange(sep as int, pj.len() as int));
            }
        }
    }
    let html_modified = attachments.len() > 0;
    Ok(
        DocumentPlan {
            attachments,
            rewritten_html: rewritten,
            html_modified,
            attachments_dir: dir_abs,
        },
    )
}

/// The report for a directory walk whose root does not denote an existing
/// directory: empty, not an error — a missing root is tolerated.
pub fn missing_root_report() -> (r: Vec<ExtractionResult>)
    ensures
        r@.len() == 0,
{
    Vec::new()
}

/// Builds the per-document result record from a plan: the processed
/// document's path and one entry per attachment, in extraction order.
pub fn to_extraction_result(html_path: &str, plan: &DocumentPlan) -> (r: ExtractionResult)
    ensures
        r.html_path@ == html_path@,
        r.html_modified == plan.html_modified,
        r.attachments@.len() == plan.attachments@.len(),
        forall|i: int|
            0 <= i < plan.attachments@.len() ==> {
                let a = #[trigger] r.attachments@[i];
                &&& a.path@ == plan.attachments@[i].path@
                &&& a.original_data_url@ == plan.attachments@[i].original_data_url@
                &&& a.mime_type@ == plan.attachments@[i].mime_type@
            },
{
    let mut attachments: Vec<ExtractedAttachment> = Vec::new();
    let mut i: usize = 0;
    let n = plan.attachments.len();
    while i < n
        invariant
            n == plan.attachments@.len(),
            0 <= i <= n,
            attachments@.len() == i,
            forall|j: int|
                0 <= j < i ==> {
                    let a = #[trigger] attachments@[j];
                    &&& a.path@ == plan.attachments@[j].path@
                    &&& a.original_data_url@ == plan.attachments@[j].original_data_url@
                    &&& a.mime_type@ == plan.attachments@[j].mime_type@
                },
        decreases n - i,
    {
        let p = &plan.attachments[i];
        attachments.push(
            ExtractedAttachment {
                path: p.path.clone(),
                original_data_url: p.original_data_url.clone(),
                mime_type: p.mime_type.clone(),
            },
        );
        i += 1;
    }
    ExtractionResult {
        html_path: html_path.to_owned(),
        attachments,
        html_modified: plan.html_modified,
    }
}

// ---------------------------------------------------------------------------
// Laws
// ---------------------------------------------------------------------------

/// Law: distinct sequence numbers always yield distinct replacement paths,
/// whatever the media types. Two matched references of one document — even
/// two that share byte-identical data-URL text — therefore point to two
/// distinct attachment files.
pub proof fn lemma_replacement_paths_distinct(
    stem: Seq<char>,
    m: nat,
    n: nat,
    media_m: Seq<char>,
    media_n: Seq<char>,
)
    requires
        m != n,
    ensures
        replacement_path(stem, m, media_m) != replacement_path(stem, n, media_n),
{
    lemma_zero_padded3_value(m);
    lemma_zero_padded3_value(n);
    lemma_zero_padded3_digits(m);
    lemma_zero_padded3_digits(n);
    let prefix = attachments_dir_name(stem) + seq!['/'] + "attachment-"@;
    let t1 = zero_padded3(m) + seq!['.'] + extension_spec(media_m);
    let t2 = zero_padded3(n) + seq!['.'] + extension_spec(media_n);
    assert(replacement_path(stem, m, media_m) =~= prefix + t1);
    assert(replacement_path(stem, n, media_n) =~= prefix + t2);
    if replacement_path(stem, m, media_m) == replacement_path(stem, n, media_n) {
        assert(t1 =~= (prefix + t1).subrange(
            prefix.len() as int,
            (prefix + t1).len() as int,
        ));
        assert(t2 =~= (prefix + t2).subrange(
            prefix.len() as int,
            (prefix + t2).len() as int,
        ));
        assert(t1 == t2);
        let l1 = zero_padded3(m).len() as int;
        let l2 = zero_padded3(n).len() as int;
        if l1 == l2 {
            assert(zero_padded3(m) =~= t1.subrange(0, l1));
            assert(zero_padded3(n) =~= t2.subrange(0, l2));
            assert(decimal_value(zero_padded3(m)) == decimal_value(zero_padded3(n)));
        } else if l1 < l2 {
            assert(t1[l1] == '.');
            assert(t2[l1] == zero_padded3(n)[l1]);
            assert(is_digit_char(zero_padded3(n)[l1]));
        } else {
            assert(t2[l2] == '.');
            assert(t1[l2] == zero_padded3(m)[l2]);
            assert(is_digit_char(zero_padded3(m)[l2]));
        }
    }
}

} // verus!
