//! Tree-walker decisions: which directory entries a recursive walk over a
//! note tree descends into, which it skips, and which files it processes.

use crate::text::{ends_with, ends_with_spec};
use vstd::prelude::*;

verus! {

/// What a recursive walk does with one directory entry.
#[derive(Debug, Clone, Copy, PartialEq, Eq, Structural)]
pub enum EntryAction {
    /// A directory that holds previously extracted attachments: do not
    /// descend into it.
    SkipAttachmentsDir,
    /// An ordinary directory: recurse into it.
    Descend,
    /// An HTML document: extract its attachments.
    ProcessHtml,
    /// Any other file: leave it alone.
    Ignore,
}

/// `name` is the name of an attachments directory: it ends with the fixed
/// suffix `-attachments`.
pub open spec fn is_attachments_dir_name(name: Seq<char>) -> bool {
    ends_with_spec(name, "-attachments"@)
}

/// `name` has the file extension `html` (case-sensitive, lowercase): it
/// ends with `.html`, and that dot is not the first character.
pub open spec fn has_html_extension(name: Seq<char>) -> bool {
    name.len() > ".html"@.len() && ends_with_spec(name, ".html"@)
}

/// What a recursive walk does with a directory entry of the given name.
pub open spec fn classify_entry_spec(name: Seq<char>, is_dir: bool) -> EntryAction {
    if is_dir && is_attachments_dir_name(name) {
        EntryAction::SkipAttachmentsDir
    } else if is_dir {
        EntryAction::Descend
    } else if has_html_extension(name) {
        EntryAction::ProcessHtml
    } else {
        EntryAction::Ignore
    }
}

/// Decides what a recursive walk does with one directory entry: skip
/// attachments directories entirely, descend into every other directory,
/// process files named `*.html`, and ignore all other files.
pub fn classify_entry(name: &str, is_dir: bool) -> (r: EntryAction)
    ensures
        r == classify_entry_spec(name@, is_dir),
{
    if is_dir {
        if ends_with(name, "-attachments") {
            EntryAction::SkipAttachmentsDir
        } else {
            EntryAction::Descend
        }
    } else {
        let len = name.unicode_len();
        let ext_len = ".html".unicode_len();
        if len > ext_len && ends_with(name, ".html") {
            EntryAction::ProcessHtml
        } else {
            EntryAction::Ignore
        }
    }
}

/// The stem of an HTML document's file name: the name without its `.html`
/// extension. The sibling attachments directory is named after it.
pub fn html_file_stem(name: &str) -> (r: String)
    requires
        has_html_extension(name@),
    ensures
        r@ == name@.subrange(0, name@.len() - ".html"@.len()),
{
    let len = name.unicode_len();
    let ext_len = ".html".unicode_len();
    name.substring_char(0, len - ext_len).to_owned()
}

/// Law: the stem of an HTML file name, with the `.html` extension put
/// back, is the file name again — so a document's attachments directory
/// name determines the document it belongs to.
pub proof fn lemma_stem_recovers_name(name: Seq<char>)
    requires
        has_html_extension(name),
    ensures
        name.subrange(0, name.len() - ".html"@.len()) + ".html"@ == name,
{
    assert(name.subrange(0, name.len() - ".html"@.len()) + name.subrange(
        name.len() - ".html"@.len(),
        name.len() as int,
    ) =~= name);
}

} // verus!
