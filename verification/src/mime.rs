//! MIME handling: the type-guessing engine's verdict behind a name, and
//! verified classification of MIME strings into file categories.
use vstd::prelude::*;

use crate::text::{chars_of, starts_with_seq, starts_with_vec, str_eq};

verus! {

/// The MIME type the guessing engine assigns a path, by its extension.
pub uninterp spec fn mime_of(path: Seq<char>) -> Option<Seq<char>>;

/// Relies on `mime_guess::MimeGuess::from_path` and `MimeGuess::first`:
/// the guess is a pure function of the path's extension.
#[verifier::external_body]
pub fn detect_mime_type(path: &str) -> (r: Option<String>)
    ensures
        match r {
            Some(m) => mime_of(path@) == Some(m@),
            None => mime_of(path@) is None,
        },
{
    mime_guess::MimeGuess::from_path(path).first().map(|m| m.to_string())
}

pub open spec fn is_text_mime_spec(mime: Seq<char>) -> bool {
    starts_with_seq(mime, "text/"@) || is_code_mime_spec(mime)
}

pub open spec fn is_code_mime_spec(mime: Seq<char>) -> bool {
    ||| mime == "application/javascript"@
    ||| mime == "application/json"@
    ||| mime == "application/xml"@
    ||| mime == "application/x-sh"@
    ||| mime == "application/x-python"@
    ||| mime == "application/x-ruby"@
    ||| mime == "application/x-perl"@
    ||| mime == "application/x-php"@
}

pub open spec fn is_archive_mime_spec(mime: Seq<char>) -> bool {
    ||| mime == "application/zip"@
    ||| mime == "application/x-tar"@
    ||| mime == "application/gzip"@
    ||| mime == "application/x-bzip2"@
    ||| mime == "application/x-7z-compressed"@
    ||| mime == "application/x-rar-compressed"@
}

pub fn is_code_mime(mime: &str) -> (r: bool)
    ensures
        r == is_code_mime_spec(mime@),
{
    str_eq(mime, "application/javascript") || str_eq(mime, "application/json") || str_eq(
        mime,
        "application/xml",
    ) || str_eq(mime, "application/x-sh") || str_eq(mime, "application/x-python") || str_eq(
        mime,
        "application/x-ruby",
    ) || str_eq(mime, "application/x-perl") || str_eq(mime, "application/x-php")
}

pub fn is_text_mime(mime: &str) -> (r: bool)
    ensures
        r == is_text_mime_spec(mime@),
{
    let mv = chars_of(mime);
    let prefix = chars_of("text/");
    starts_with_vec(&mv, &prefix) || is_code_mime(mime)
}

pub fn is_image_mime(mime: &str) -> (r: bool)
    ensures
        r == starts_with_seq(mime@, "image/"@),
{
    let mv = chars_of(mime);
    let prefix = chars_of("image/");
    starts_with_vec(&mv, &prefix)
}

pub fn is_video_mime(mime: &str) -> (r: bool)
    ensures
        r == starts_with_seq(mime@, "video/"@),
{
    let mv = chars_of(mime);
    let prefix = chars_of("video/");
    starts_with_vec(&mv, &prefix)
}

pub fn is_audio_mime(mime: &str) -> (r: bool)
    ensures
        r == starts_with_seq(mime@, "audio/"@),
{
    let mv = chars_of(mime);
    let prefix = chars_of("audio/");
    starts_with_vec(&mv, &prefix)
}

pub fn is_archive_mime(mime: &str) -> (r: bool)
    ensures
        r == is_archive_mime_spec(mime@),
{
    str_eq(mime, "application/zip") || str_eq(mime, "application/x-tar") || str_eq(
        mime,
        "application/gzip",
    ) || str_eq(mime, "application/x-bzip2") || str_eq(mime, "application/x-7z-compressed")
        || str_eq(mime, "application/x-rar-compressed")
}

#[derive(Debug, Clone, Copy, PartialEq, Eq, Structural)]
pub enum FileCategory {
    Text,
    Image,
    Video,
    Audio,
    Archive,
    Other,
    Unknown,
}

/// The category a MIME string falls into.
pub open spec fn classify_mime(mime: Seq<char>) -> FileCategory {
    if is_text_mime_spec(mime) || is_code_mime_spec(mime) {
        FileCategory::Text
    } else if starts_with_seq(mime, "image/"@) {
        FileCategory::Image
    } else if starts_with_seq(mime, "video/"@) {
        FileCategory::Video
    } else if starts_with_seq(mime, "audio/"@) {
        FileCategory::Audio
    } else if is_archive_mime_spec(mime) {
        FileCategory::Archive
    } else {
        FileCategory::Other
    }
}

/// The category of a path: its guessed MIME type classified; unknown when
/// the engine has no guess.
pub fn categorize_file(path: &str) -> (r: FileCategory)
    ensures
        r == (match mime_of(path@) {
            Some(m) => classify_mime(m),
            None => FileCategory::Unknown,
        }),
{
    match detect_mime_type(path) {
        Some(m) => {
            let ms = m.as_str();
            if is_text_mime(ms) || is_code_mime(ms) {
                FileCategory::Text
            } else if is_image_mime(ms) {
                FileCategory::Image
            } else if is_video_mime(ms) {
                FileCategory::Video
            } else if is_audio_mime(ms) {
                FileCategory::Audio
            } else if is_archive_mime(ms) {
                FileCategory::Archive
            } else {
                FileCategory::Other
            }
        },
        None => FileCategory::Unknown,
    }
}

} // verus!
