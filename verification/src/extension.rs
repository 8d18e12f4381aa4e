//! Extension handling: normalisation, list parsing, the per-entry extension
//! filter, and classification of well-known extensions into categories.
use vstd::prelude::*;

use crate::text::{
    chars_of, lower, lower_str, lower_vec, split_char, split_char_vec, str_eq, string_of, sub_vec,
    trim_spec, trim_vec, views_of,
};
use crate::types::FileEntry;

verus! {

/// Leading dots stripped, then ASCII-lowercased.
pub open spec fn normalize_ext_spec(s: Seq<char>) -> Seq<char>
    decreases s.len(),
{
    if s.len() > 0 && s[0] == '.' {
        normalize_ext_spec(s.drop_first())
    } else {
        lower(s)
    }
}

fn normalize_piece(v: &Vec<char>) -> (r: Vec<char>)
    ensures
        r@ == normalize_ext_spec(v@),
{
    let mut i: usize = 0;
    proof {
        assert(v@.skip(0) =~= v@);
    }
    while i < v.len() && v[i] == '.'
        invariant
            i <= v@.len(),
            normalize_ext_spec(v@) == normalize_ext_spec(v@.skip(i as int)),
        decreases v.len() - i,
    {
        proof {
            assert(v@.skip(i as int)[0] == v@[i as int]);
            assert(v@.skip(i as int).drop_first() =~= v@.skip(i + 1));
        }
        i = i + 1;
    }
    let rest = sub_vec(v, i, v.len());
    proof {
        assert(rest@ =~= v@.skip(i as int));
        if i < v@.len() {
            assert(v@.skip(i as int)[0] != '.');
        } else {
            assert(v@.skip(i as int) =~= Seq::<char>::empty());
            assert(lower(v@.skip(i as int)) =~= Seq::<char>::empty());
        }
    }
    lower_vec(&rest)
}

pub fn normalize_extension(ext: &str) -> (r: String)
    ensures
        r@ == normalize_ext_spec(ext@),
{
    let v = chars_of(ext);
    let n = normalize_piece(&v);
    string_of(&n)
}

/// The comma-separated extensions of `input`: each piece trimmed and
/// normalised, empty results dropped.
pub open spec fn parse_extensions_spec(s: Seq<char>) -> Seq<Seq<char>> {
    split_char(s, ',').map_values(|p: Seq<char>| normalize_ext_spec(trim_spec(p))).filter(
        |p: Seq<char>| p.len() > 0,
    )
}

pub fn parse_extensions(input: &str) -> (r: Vec<String>)
    ensures
        r@.map_values(|s: String| s@) == parse_extensions_spec(input@),
{
    let v = chars_of(input);
    let pieces = split_char_vec(&v, ',');
    let ghost mapped: Seq<Seq<char>> = views_of(pieces@).map_values(
        |p: Seq<char>| normalize_ext_spec(trim_spec(p)),
    );
    let ghost keep = |p: Seq<char>| p.len() > 0;
    let mut out: Vec<String> = Vec::new();
    let mut i: usize = 0;
    proof {
        assert(mapped.take(0) =~= Seq::<Seq<char>>::empty());
        assert(out@.map_values(|s: String| s@) =~= mapped.take(0).filter(keep));
    }
    while i < pieces.len()
        invariant
            i <= pieces@.len(),
            mapped == views_of(pieces@).map_values(
                |p: Seq<char>| normalize_ext_spec(trim_spec(p)),
            ),
            keep == (|p: Seq<char>| p.len() > 0),
            out@.map_values(|s: String| s@) == mapped.take(i as int).filter(keep),
        decreases pieces.len() - i,
    {
        let t = trim_vec(&pieces[i]);
        let n = normalize_piece(&t);
        proof {
            assert(mapped.take(i + 1).drop_last() =~= mapped.take(i as int));
            assert(mapped.take(i + 1).last() == normalize_ext_spec(
                trim_spec(pieces@[i as int]@),
            ));
            assert(n@ == mapped.take(i + 1).last());
        }
        let ghost out0 = out@;
        if n.len() > 0 {
            out.push(string_of(&n));
            proof {
                reveal_with_fuel(Seq::filter, 2);
                assert(out@.map_values(|s: String| s@) =~= out0.map_values(
                    |s: String| s@,
                ).push(n@));
                assert(mapped.take(i + 1).filter(keep) =~= mapped.take(i as int).filter(
                    keep,
                ).push(n@));
            }
        } else {
            proof {
                reveal_with_fuel(Seq::filter, 2);
                assert(mapped.take(i + 1).filter(keep) =~= mapped.take(i as int).filter(keep));
            }
        }
        i = i + 1;
    }
    proof {
        assert(mapped.take(pieces@.len() as int) =~= mapped);
    }
    out
}

/// A plain extension, as the extension parser itself produces them:
/// nonempty, not dot-led, and free of commas, whitespace and uppercase.
pub open spec fn ext_plain(x: Seq<char>) -> bool {
    &&& x.len() > 0
    &&& x[0] != '.'
    &&& forall|j: int|
        0 <= j < x.len() ==> (#[trigger] x[j]) != ',' && !crate::text::is_space(x[j])
            && !crate::text::is_ascii_upper(x[j])
}

/// Normalising a plain extension changes nothing.
pub proof fn lemma_normalize_id(x: Seq<char>)
    requires
        x.len() > 0,
        x[0] != '.',
        forall|j: int| 0 <= j < x.len() ==> !crate::text::is_ascii_upper(#[trigger] x[j]),
    ensures
        normalize_ext_spec(x) == x,
{
    assert(normalize_ext_spec(x) == lower(x));
    assert forall|j: int| 0 <= j < x.len() implies #[trigger] lower(x)[j] == x[j] by {
        assert(lower(x)[j] == crate::text::lower_char(x[j]));
    }
    assert(lower(x) =~= x);
}

/// A joined list of plain extensions parses back to exactly that list.
pub proof fn lemma_ext_round_trip(exts: Seq<Seq<char>>)
    requires
        exts.len() > 0,
        forall|k: int| 0 <= k < exts.len() ==> ext_plain(#[trigger] exts[k]),
    ensures
        parse_extensions_spec(crate::text::join_sep(exts, ',')) == exts,
{
    let joined = crate::text::join_sep(exts, ',');
    assert(forall|k: int, j: int|
        0 <= k < exts.len() && 0 <= j < exts[k].len() ==> (#[trigger] exts[k][j]) != ',') by {
        assert(forall|k: int| 0 <= k < exts.len() ==> ext_plain(#[trigger] exts[k]));
    }
    crate::text::lemma_split_char_join(exts, ',');
    let mapped = exts.map_values(|p: Seq<char>| normalize_ext_spec(trim_spec(p)));
    assert forall|k: int| 0 <= k < exts.len() implies #[trigger] mapped[k] == exts[k] by {
        assert(crate::text::space_free(exts[k]));
        crate::text::lemma_trim_id(exts[k]);
        lemma_normalize_id(exts[k]);
    }
    assert(mapped =~= exts);
    crate::text::lemma_filter_all(exts, |p: Seq<char>| p.len() > 0);
}

/// The dot-stripped head of a normalised extension never starts with a
/// dot, and its characters come from the input through lowercasing.
pub proof fn lemma_normalize_props(x: Seq<char>)
    ensures
        normalize_ext_spec(x).len() > 0 ==> normalize_ext_spec(x)[0] != '.',
        forall|j: int|
            0 <= j < normalize_ext_spec(x).len() ==> !crate::text::is_ascii_upper(
                #[trigger] normalize_ext_spec(x)[j],
            ),
        (forall|j: int|
            0 <= j < x.len() ==> (#[trigger] x[j]) != ',' && !crate::text::is_space(x[j]))
            ==> forall|j: int|
            0 <= j < normalize_ext_spec(x).len() ==> (#[trigger] normalize_ext_spec(x)[j])
                != ',' && !crate::text::is_space(normalize_ext_spec(x)[j]),
    decreases x.len(),
{
    if x.len() > 0 && x[0] == '.' {
        assert(forall|j: int| 0 <= j < x.len() - 1 ==> #[trigger] x.drop_first()[j] == x[j + 1]);
        lemma_normalize_props(x.drop_first());
    } else {
        let n = normalize_ext_spec(x);
        assert(n == lower(x));
        assert(forall|j: int|
            0 <= j < n.len() ==> #[trigger] n[j] == crate::text::lower_char(x[j]));
        if n.len() > 0 {
            assert(n[0] == crate::text::lower_char(x[0]));
        }
    }
}

/// Every extension the parser yields from a whitespace-free value is
/// plain.
pub proof fn lemma_parsed_exts_plain(value: Seq<char>)
    requires
        crate::text::space_free(value),
    ensures
        forall|k: int|
            0 <= k < parse_extensions_spec(value).len() ==> ext_plain(
                #[trigger] parse_extensions_spec(value)[k],
            ),
{
    let pieces = split_char(value, ',');
    let mapped = pieces.map_values(|p: Seq<char>| normalize_ext_spec(trim_spec(p)));
    let keep = |p: Seq<char>| p.len() > 0;
    let out = mapped.filter(keep);
    crate::text::lemma_split_char_pieces(
        value,
        ',',
        Seq::<char>::empty(),
        |c: char| !crate::text::is_space(c),
    );
    assert forall|k: int| 0 <= k < out.len() implies ext_plain(#[trigger] out[k]) by {
        mapped.lemma_filter_pred(keep, k);
        crate::text::lemma_filter_origin(mapped, keep, k);
        let src = choose|src: int| 0 <= src < mapped.len() && mapped[src] == out[k];
        let piece = pieces[src];
        assert(out[k] == normalize_ext_spec(trim_spec(piece)));
        assert(forall|j: int|
            0 <= j < piece.len() ==> (#[trigger] piece[j]) != ',' && !crate::text::is_space(
                piece[j],
            ));
        crate::text::lemma_trim_preserves(
            piece,
            |c: char| c != ',' && !crate::text::is_space(c),
        );
        lemma_normalize_props(trim_spec(piece));
    }
}

/// Does the entry pass the extension filter? An empty filter accepts every
/// entry; otherwise the entry's extension must equal one of the listed
/// extensions up to ASCII case.
pub open spec fn extension_accepts(exts: Seq<Seq<char>>, entry_ext: Option<Seq<char>>) -> bool {
    if exts.len() == 0 {
        true
    } else {
        match entry_ext {
            Some(e) => exists|i: int| 0 <= i < exts.len() && lower(#[trigger] exts[i]) == lower(e),
            None => false,
        }
    }
}

pub open spec fn entry_ext_view(entry: &FileEntry) -> Option<Seq<char>> {
    match entry.extension {
        Some(ref e) => Some(e@),
        None => None,
    }
}

pub fn apply_extension_filter(entry: &FileEntry, extensions: &Vec<String>) -> (r: bool)
    ensures
        r == extension_accepts(
            extensions@.map_values(|s: String| s@),
            entry_ext_view(entry),
        ),
{
    let ghost exts = extensions@.map_values(|s: String| s@);
    if extensions.len() == 0 {
        return true;
    }
    match &entry.extension {
        Some(e) => {
            let ev = chars_of(e.as_str());
            let el = lower_vec(&ev);
            let mut i: usize = 0;
            while i < extensions.len()
                invariant
                    i <= extensions@.len(),
                    exts == extensions@.map_values(|s: String| s@),
                    el@ == lower(entry_ext_view(entry)->Some_0),
                    entry_ext_view(entry) is Some,
                    forall|j: int| 0 <= j < i ==> lower(#[trigger] exts[j]) != el@,
                decreases extensions.len() - i,
            {
                let cv = chars_of(extensions[i].as_str());
                let cl = lower_vec(&cv);
                if crate::text::eq_vec(&cl, &el) {
                    proof {
                        assert(lower(exts[i as int]) == lower(entry_ext_view(entry)->Some_0));
                    }
                    return true;
                }
                i = i + 1;
            }
            false
        },
        None => false,
    }
}

// ---------------------------------------------------------------------------
// Extension categories
// ---------------------------------------------------------------------------

#[derive(Debug, Clone, Copy, PartialEq, Eq, Structural)]
pub enum ExtensionCategory {
    SourceCode,
    Document,
    Image,
    Video,
    Audio,
    Archive,
    Other,
}

pub open spec fn is_source_code_ext_spec(s: Seq<char>) -> bool {
    let l = lower(s);
    ||| l == "rs"@
    ||| l == "py"@
    ||| l == "js"@
    ||| l == "ts"@
    ||| l == "jsx"@
    ||| l == "tsx"@
    ||| l == "java"@
    ||| l == "c"@
    ||| l == "cpp"@
    ||| l == "cc"@
    ||| l == "cxx"@
    ||| l == "h"@
    ||| l == "hpp"@
    ||| l == "cs"@
    ||| l == "go"@
    ||| l == "rb"@
    ||| l == "php"@
    ||| l == "swift"@
    ||| l == "kt"@
    ||| l == "scala"@
    ||| l == "clj"@
    ||| l == "hs"@
    ||| l == "ml"@
    ||| l == "ex"@
    ||| l == "exs"@
    ||| l == "erl"@
    ||| l == "vim"@
    ||| l == "lua"@
    ||| l == "r"@
    ||| l == "sh"@
    ||| l == "bash"@
    ||| l == "zsh"@
    ||| l == "fish"@
    ||| l == "ps1"@
    ||| l == "psm1"@
}

pub fn is_source_code_extension(ext: &str) -> (r: bool)
    ensures
        r == is_source_code_ext_spec(ext@),
{
    let l = lower_str(ext);
    let s = l.as_str();
    str_eq(s, "rs") || str_eq(s, "py") || str_eq(s, "js") || str_eq(s, "ts") || str_eq(s, "jsx")
        || str_eq(s, "tsx") || str_eq(s, "java") || str_eq(s, "c") || str_eq(s, "cpp") || str_eq(
        s,
        "cc",
    ) || str_eq(s, "cxx") || str_eq(s, "h") || str_eq(s, "hpp") || str_eq(s, "cs") || str_eq(
        s,
        "go",
    ) || str_eq(s, "rb") || str_eq(s, "php") || str_eq(s, "swift") || str_eq(s, "kt") || str_eq(
        s,
        "scala",
    ) || str_eq(s, "clj") || str_eq(s, "hs") || str_eq(s, "ml") || str_eq(s, "ex") || str_eq(
        s,
        "exs",
    ) || str_eq(s, "erl") || str_eq(s, "vim") || str_eq(s, "lua") || str_eq(s, "r") || str_eq(
        s,
        "sh",
    ) || str_eq(s, "bash") || str_eq(s, "zsh") || str_eq(s, "fish") || str_eq(s, "ps1") || str_eq(
        s,
        "psm1",
    )
}

pub open spec fn is_document_ext_spec(s: Seq<char>) -> bool {
    let l = lower(s);
    ||| l == "txt"@
    ||| l == "md"@
    ||| l == "pdf"@
    ||| l == "doc"@
    ||| l == "docx"@
    ||| l == "odt"@
    ||| l == "rtf"@
    ||| l == "tex"@
    ||| l == "xls"@
    ||| l == "xlsx"@
    ||| l == "ods"@
    ||| l == "ppt"@
    ||| l == "pptx"@
    ||| l == "odp"@
}

pub fn is_document_extension(ext: &str) -> (r: bool)
    ensures
        r == is_document_ext_spec(ext@),
{
    let l = lower_str(ext);
    let s = l.as_str();
    str_eq(s, "txt") || str_eq(s, "md") || str_eq(s, "pdf") || str_eq(s, "doc") || str_eq(
        s,
        "docx",
    ) || str_eq(s, "odt") || str_eq(s, "rtf") || str_eq(s, "tex") || str_eq(s, "xls") || str_eq(
        s,
        "xlsx",
    ) || str_eq(s, "ods") || str_eq(s, "ppt") || str_eq(s, "pptx") || str_eq(s, "odp")
}

pub open spec fn is_image_ext_spec(s: Seq<char>) -> bool {
    let l = lower(s);
    ||| l == "jpg"@
    ||| l == "jpeg"@
    ||| l == "png"@
    ||| l == "gif"@
    ||| l == "bmp"@
    ||| l == "svg"@
    ||| l == "webp"@
    ||| l == "ico"@
    ||| l == "tiff"@
    ||| l == "tif"@
    ||| l == "heic"@
    ||| l == "heif"@
}

pub fn is_image_extension(ext: &str) -> (r: bool)
    ensures
        r == is_image_ext_spec(ext@),
{
    let l = lower_str(ext);
    let s = l.as_str();
    str_eq(s, "jpg") || str_eq(s, "jpeg") || str_eq(s, "png") || str_eq(s, "gif") || str_eq(
        s,
        "bmp",
    ) || str_eq(s, "svg") || str_eq(s, "webp") || str_eq(s, "ico") || str_eq(s, "tiff") || str_eq(
        s,
        "tif",
    ) || str_eq(s, "heic") || str_eq(s, "heif")
}

pub open spec fn is_video_ext_spec(s: Seq<char>) -> bool {
    let l = lower(s);
    ||| l == "mp4"@
    ||| l == "avi"@
    ||| l == "mkv"@
    ||| l == "mov"@
    ||| l == "wmv"@
    ||| l == "flv"@
    ||| l == "webm"@
    ||| l == "m4v"@
    ||| l == "mpg"@
    ||| l == "mpeg"@
}

pub fn is_video_extension(ext: &str) -> (r: bool)
    ensures
        r == is_video_ext_spec(ext@),
{
    let l = lower_str(ext);
    let s = l.as_str();
    str_eq(s, "mp4") || str_eq(s, "avi") || str_eq(s, "mkv") || str_eq(s, "mov") || str_eq(
        s,
        "wmv",
    ) || str_eq(s, "flv") || str_eq(s, "webm") || str_eq(s, "m4v") || str_eq(s, "mpg") || str_eq(
        s,
        "mpeg",
    )
}

pub open spec fn is_audio_ext_spec(s: Seq<char>) -> bool {
    let l = lower(s);
    ||| l == "mp3"@
    ||| l == "wav"@
    ||| l == "flac"@
    ||| l == "aac"@
    ||| l == "ogg"@
    ||| l == "wma"@
    ||| l == "m4a"@
    ||| l == "opus"@
    ||| l == "ape"@
}

pub fn is_audio_extension(ext: &str) -> (r: bool)
    ensures
        r == is_audio_ext_spec(ext@),
{
    let l = lower_str(ext);
    let s = l.as_str();
    str_eq(s, "mp3") || str_eq(s, "wav") || str_eq(s, "flac") || str_eq(s, "aac") || str_eq(
        s,
        "ogg",
    ) || str_eq(s, "wma") || str_eq(s, "m4a") || str_eq(s, "opus") || str_eq(s, "ape")
}

pub open spec fn is_archive_ext_spec(s: Seq<char>) -> bool {
    let l = lower(s);
    ||| l == "zip"@
    ||| l == "tar"@
    ||| l == "gz"@
    ||| l == "bz2"@
    ||| l == "xz"@
    ||| l == "7z"@
    ||| l == "rar"@
    ||| l == "tgz"@
    ||| l == "tbz2"@
    ||| l == "txz"@
}

pub fn is_archive_extension(ext: &str) -> (r: bool)
    ensures
        r == is_archive_ext_spec(ext@),
{
    let l = lower_str(ext);
    let s = l.as_str();
    str_eq(s, "zip") || str_eq(s, "tar") || str_eq(s, "gz") || str_eq(s, "bz2") || str_eq(s, "xz")
        || str_eq(s, "7z") || str_eq(s, "rar") || str_eq(s, "tgz") || str_eq(s, "tbz2") || str_eq(
        s,
        "txz",
    )
}

/// Category of an extension: the first class it falls in, source code
/// checked first, archives last, anything else `Other`.
pub open spec fn category_spec(s: Seq<char>) -> ExtensionCategory {
    if is_source_code_ext_spec(s) {
        ExtensionCategory::SourceCode
    } else if is_document_ext_spec(s) {
        ExtensionCategory::Document
    } else if is_image_ext_spec(s) {
        ExtensionCategory::Image
    } else if is_video_ext_spec(s) {
        ExtensionCategory::Video
    } else if is_audio_ext_spec(s) {
        ExtensionCategory::Audio
    } else if is_archive_ext_spec(s) {
        ExtensionCategory::Archive
    } else {
        ExtensionCategory::Other
    }
}

pub fn get_extension_category(ext: &str) -> (r: ExtensionCategory)
    ensures
        r == category_spec(ext@),
{
    if is_source_code_extension(ext) {
        ExtensionCategory::SourceCode
    } else if is_document_extension(ext) {
        ExtensionCategory::Document
    } else if is_image_extension(ext) {
        ExtensionCategory::Image
    } else if is_video_extension(ext) {
        ExtensionCategory::Video
    } else if is_audio_extension(ext) {
        ExtensionCategory::Audio
    } else if is_archive_extension(ext) {
        ExtensionCategory::Archive
    } else {
        ExtensionCategory::Other
    }
}

} // verus!
