//! The computable parts of extracting text from a file: which extractor a
//! file extension selects, and the limit on extracted text.

use vstd::prelude::*;
use vstd::utf8::{is_char_boundary, encode_utf8};
use vstd::string::StringSliceAdditionalSpecFns;
use crate::text::{str_eq, owned, joined, to_lowercase};

verus! {

/// Text extracted from a file.
#[derive(Debug)]
pub struct ExtractedContent {
    pub text: String,
    pub file_name: String,
    pub file_type: String,
    pub file_size: u64,
}

/// The extractor a file needs.
#[derive(Debug, Clone, Copy, PartialEq, Eq, Structural)]
pub enum FileKind {
    /// Plain text, read as it is (`txt`, `md`, `text`).
    Text,
    /// PDF (`pdf`).
    Pdf,
    /// Word document (`docx`, `doc`).
    Docx,
    /// Rich text (`rtf`).
    Rtf,
}

/// The extractor a lowercase extension selects, or the message
/// `Unsupported file type: <extension>`.
pub open spec fn kind_of_extension(ext: Seq<char>) -> Result<FileKind, Seq<char>> {
    if ext == "txt"@ || ext == "md"@ || ext == "text"@ {
        Ok(FileKind::Text)
    } else if ext == "pdf"@ {
        Ok(FileKind::Pdf)
    } else if ext == "docx"@ || ext == "doc"@ {
        Ok(FileKind::Docx)
    } else if ext == "rtf"@ {
        Ok(FileKind::Rtf)
    } else {
        Err("Unsupported file type: "@ + ext)
    }
}

/// The lowercase form of a file extension.
pub fn normalize_extension(extension: &str) -> (r: String)
    ensures
        r@ == crate::text::unicode_lowercase(extension@),
{
    to_lowercase(extension)
}

/// The extractor a lowercase extension selects.
pub fn classify_extension(ext: &str) -> (r: Result<FileKind, String>)
    ensures
        match (r, kind_of_extension(ext@)) {
            (Ok(k), Ok(k2)) => k == k2,
            (Err(e), Err(e2)) => e@ == e2,
            _ => false,
        },
{
    if str_eq(ext, "txt") || str_eq(ext, "md") || str_eq(ext, "text") {
        Ok(FileKind::Text)
    } else if str_eq(ext, "pdf") {
        Ok(FileKind::Pdf)
    } else if str_eq(ext, "docx") || str_eq(ext, "doc") {
        Ok(FileKind::Docx)
    } else if str_eq(ext, "rtf") {
        Ok(FileKind::Rtf)
    } else {
        Err(joined("Unsupported file type: ", ext))
    }
}

/// The most bytes of extracted text kept.
pub open spec fn content_limit() -> int {
    10000
}

/// Limits extracted text to its first 10000 bytes, marking the cut with
/// `\n\n... [content truncated]`; shorter text is kept whole.
pub fn limit_content(text: String) -> (r: String)
    requires
        encode_utf8(text@).len() <= usize::MAX,
        encode_utf8(text@).len() > content_limit() ==> is_char_boundary(
            encode_utf8(text@),
            content_limit(),
        ),
    ensures
        encode_utf8(text@).len() <= content_limit() ==> r@ == text@,
        encode_utf8(text@).len() > content_limit() ==> exists|p: Seq<char>|
            #[trigger] encode_utf8(p) == encode_utf8(text@).take(content_limit()) && r@ == p
                + "\n\n... [content truncated]"@,
{
    let s = text.as_str();
    if s.len() > 10000 {
        let (head, _) = s.split_at(10000);
        let r = joined(head, "\n\n... [content truncated]");
        assert(encode_utf8(head@) =~= encode_utf8(text@).take(content_limit()));
        assert(r@ == head@ + "\n\n... [content truncated]"@);
        r
    } else {
        text
    }
}

} // verus!
