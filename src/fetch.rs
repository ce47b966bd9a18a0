//! What a fetched response becomes: the decoding of legacy text, the
//! dispatch on the declared content type, and the names of stored files.
use crate::text::{
    after_last_char, before_char, chars_eq, chars_of, prefix_before, push_all, string_of,
    suffix_after_last,
};
use vstd::prelude::*;

verus! {

/// The text that windows-1252 decoding makes of some bytes, and whether
/// malformed input was replaced on the way.
pub uninterp spec fn windows_1252_decoded(b: Seq<u8>) -> (Seq<char>, bool);

/// Whether every byte is ASCII.
pub open spec fn all_ascii(b: Seq<u8>) -> bool {
    forall|i: int| 0 <= i < b.len() ==> #[trigger] b[i] < 128
}

/// ASCII bytes read as characters.
pub open spec fn ascii_text(b: Seq<u8>) -> Seq<char> {
    Seq::new(b.len(), |i: int| b[i] as char)
}

/// Relies on `encoding_rs::WINDOWS_1252.decode`: best-effort decoding that
/// reports replaced input; windows-1252 leaves ASCII as it is.
#[verifier::external_body]
fn windows_1252_decode(b: &[u8]) -> (r: (String, bool))
    ensures
        (r.0@, r.1) == windows_1252_decoded(b@),
        all_ascii(b@) ==> r.0@ == ascii_text(b@) && !r.1,
{
    let (text, _, had_errors) = encoding_rs::WINDOWS_1252.decode(b);
    (text.into_owned(), had_errors)
}

/// Decodes bytes of the legacy single-byte encoding. The flag tells whether
/// some input was replaced, which callers report as a warning.
pub fn decode(bytes: &Vec<u8>) -> (r: (String, bool))
    ensures
        (r.0@, r.1) == windows_1252_decoded(bytes@),
        all_ascii(bytes@) ==> r.0@ == ascii_text(bytes@) && !r.1,
{
    windows_1252_decode(bytes.as_slice())
}

#[verifier::external_type_specification]
#[verifier::external_body]
pub struct ExJsonValue(serde_json::Value);

/// Whether serde_json reads some bytes as a JSON value.
pub uninterp spec fn json_accepted(b: Seq<u8>) -> bool;

/// Relies on `serde_json::from_slice` into a `serde_json::Value`: whether it
/// succeeds depends on the bytes alone.
#[verifier::external_body]
fn parse_json(b: &[u8]) -> (r: Option<serde_json::Value>)
    ensures
        r is Some <==> json_accepted(b@),
{
    serde_json::from_slice::<serde_json::Value>(b).ok()
}

/// Relies on `serde_json::to_string_pretty`: the value written out again,
/// indented; its signature admits failure, so nothing is promised.
#[verifier::external_body]
fn pretty_json(v: &serde_json::Value) -> (r: Option<String>) {
    serde_json::to_string_pretty(v).ok()
}

/// A JSON body checked and written out again, indented; a body that
/// serde_json does not accept gives nothing, so the caller can fail the
/// download.
pub fn reformat_json(bytes: &Vec<u8>) -> (r: Option<String>)
    ensures
        r is Some ==> json_accepted(bytes@),
{
    match parse_json(bytes.as_slice()) {
        Some(v) => pretty_json(&v),
        None => None,
    }
}

/// How a response body is handled.
#[derive(Clone, Copy, Debug, PartialEq, Eq, Structural)]
pub enum ContentKind {
    /// Tabular text: decoded and written as one file.
    Tabular,
    /// JSON: parsed and written back out.
    Json,
    /// A ZIP archive of tabular files.
    Zip,
    /// Anything else: reported and skipped.
    Unsupported,
}

/// The kind of a declared content type, judged by the media type before any
/// parameters.
pub open spec fn content_kind(content_type: Seq<char>) -> ContentKind {
    let media = before_char(content_type, ';');
    if media == "text/csv"@ || media == "application/octet-stream"@ {
        ContentKind::Tabular
    } else if media == "application/json"@ {
        ContentKind::Json
    } else if media == "application/zip"@ {
        ContentKind::Zip
    } else {
        ContentKind::Unsupported
    }
}

/// Decides once how a response with this content type is handled.
pub fn classify_content_type(content_type: &str) -> (r: ContentKind)
    ensures
        r == content_kind(content_type@),
{
    let ct = chars_of(content_type);
    let media = prefix_before(&ct, ';');
    if chars_eq(&media, &chars_of("text/csv")) || chars_eq(
        &media,
        &chars_of("application/octet-stream"),
    ) {
        ContentKind::Tabular
    } else if chars_eq(&media, &chars_of("application/json")) {
        ContentKind::Json
    } else if chars_eq(&media, &chars_of("application/zip")) {
        ContentKind::Zip
    } else {
        ContentKind::Unsupported
    }
}

/// What to do with a response.
#[derive(Clone, Copy, Debug, PartialEq, Eq, Structural)]
pub enum ResponseAction {
    /// The stored copy is current: write nothing.
    KeepStored,
    /// Store the body as this kind of content.
    Store(ContentKind),
}

/// A `304 Not Modified` keeps the stored copy; any other response is
/// handled by its content type.
pub fn response_action(status: u16, content_type: &str) -> (r: ResponseAction)
    ensures
        status == 304 ==> r == ResponseAction::KeepStored,
        status != 304 ==> r == ResponseAction::Store(content_kind(content_type@)),
{
    if status == 304 {
        ResponseAction::KeepStored
    } else {
        ResponseAction::Store(classify_content_type(content_type))
    }
}

/// The file name that a URL is stored under: its last path segment.
pub fn file_name_from_url(url: &str) -> (r: String)
    ensures
        r@ == after_last_char(url@, '/'),
{
    let u = chars_of(url);
    let name = suffix_after_last(&u, '/');
    string_of(&name)
}

/// Where an archive entry is written: under the dataset's folder and the
/// archive's subfolder, or directly under the dataset's folder when there is
/// no subfolder.
pub open spec fn entry_path(base: Seq<char>, subfolder: Seq<char>, name: Seq<char>) -> Seq<char> {
    if subfolder.len() == 0 {
        base + "/"@ + name
    } else {
        base + "/"@ + subfolder + "/"@ + name
    }
}

/// The path of an archive entry.
pub fn archive_entry_path(base: &str, subfolder: &str, name: &str) -> (r: String)
    ensures
        r@ == entry_path(base@, subfolder@, name@),
{
    let mut out = chars_of(base);
    let slash = chars_of("/");
    push_all(&mut out, &slash);
    let sub = chars_of(subfolder);
    if sub.len() > 0 {
        push_all(&mut out, &sub);
        push_all(&mut out, &slash);
    }
    let n = chars_of(name);
    push_all(&mut out, &n);
    proof {
        assert(out@ =~= entry_path(base@, subfolder@, name@));
    }
    string_of(&out)
}

/// Why the download of a document failed.
#[derive(Clone, Debug, PartialEq, Eq)]
pub enum DownloadError {
    Cancelled,
    DownloadFailed(String),
    CreateDirFailed(String),
    WriteFileFailed(String),
    DecodeFailed(String),
}

/// The message that describes a download error.
pub open spec fn error_message(e: DownloadError) -> Seq<char> {
    match e {
        DownloadError::Cancelled => "Operation was cancelled"@,
        DownloadError::DownloadFailed(s) => "Failed to download file: "@ + s@,
        DownloadError::CreateDirFailed(s) => "Failed to create directory: "@ + s@,
        DownloadError::WriteFileFailed(s) => "Failed to write file: "@ + s@,
        DownloadError::DecodeFailed(s) => "Failed to decode file: "@ + s@,
    }
}

impl DownloadError {
    /// The message that describes this error.
    pub fn message(&self) -> (r: String)
        ensures
            r@ == error_message(*self),
    {
        let (head, detail) = match self {
            DownloadError::Cancelled => {
                return string_of(&chars_of("Operation was cancelled"));
            },
            DownloadError::DownloadFailed(s) => (chars_of("Failed to download file: "), s),
            DownloadError::CreateDirFailed(s) => (chars_of("Failed to create directory: "), s),
            DownloadError::WriteFileFailed(s) => (chars_of("Failed to write file: "), s),
            DownloadError::DecodeFailed(s) => (chars_of("Failed to decode file: "), s),
        };
        let mut out = head;
        let d = chars_of(detail.as_str());
        push_all(&mut out, &d);
        string_of(&out)
    }
}

} // verus!
