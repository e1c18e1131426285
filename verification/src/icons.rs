//! File icons used by the Files panel.

use vstd::prelude::*;
use crate::chars;

verus! {

/// The icon families a file name falls into.
#[derive(Clone, Copy, Debug, PartialEq, Eq, Structural)]
pub enum FileIconKind {
    Code,
    Markdown,
    Text,
    Media,
    Pdf,
    Archive,
    Docker,
    Generic,
}

/// Index of the last `.` of `s` before `i`, or -1 when there is none.
pub open spec fn last_dot(s: Seq<char>, i: int) -> int
    decreases i,
{
    if i <= 0 {
        -1
    } else if s[i - 1] == '.' {
        i - 1
    } else {
        last_dot(s, i - 1)
    }
}

/// The text after the last `.` of `s`, or all of `s` without one
/// (`rsplit('.').next()`).
pub open spec fn extension(s: Seq<char>) -> Seq<char> {
    s.skip(last_dot(s, s.len() as int) + 1)
}

pub open spec fn is_code_ext(e: Seq<char>) -> bool {
    e == "rs"@ || e == "py"@ || e == "js"@ || e == "jsx"@ || e == "ts"@ || e == "tsx"@ || e == "go"@
        || e == "java"@ || e == "c"@ || e == "h"@ || e == "cpp"@ || e == "hpp"@ || e == "cs"@ || e
        == "rb"@ || e == "php"@ || e == "swift"@ || e == "kt"@ || e == "kts"@ || e == "zig"@ || e
        == "lua"@ || e == "sh"@ || e == "fish"@ || e == "vim"@
}

pub open spec fn is_markdown_ext(e: Seq<char>) -> bool {
    e == "md"@ || e == "markdown"@
}

pub open spec fn is_text_ext(e: Seq<char>) -> bool {
    e == "txt"@ || e == "rst"@ || e == "adoc"@ || e == "log"@
}

pub open spec fn is_media_ext(e: Seq<char>) -> bool {
    e == "png"@ || e == "jpg"@ || e == "jpeg"@ || e == "gif"@ || e == "svg"@ || e == "webp"@ || e
        == "bmp"@ || e == "ico"@
}

pub open spec fn is_archive_ext(e: Seq<char>) -> bool {
    e == "zip"@ || e == "tar"@ || e == "gz"@ || e == "bz2"@ || e == "xz"@ || e == "7z"@
}

/// Docker files are recognised by their whole name; everything else by the
/// lower-cased extension.
pub open spec fn kind_spec(name: Seq<char>) -> FileIconKind {
    let lower = chars::lower_text(name);
    if name == "Dockerfile"@ || name == ".dockerignore"@ || lower == "docker-compose.yml"@ || lower
        == "docker-compose.yaml"@ {
        FileIconKind::Docker
    } else {
        let e = extension(lower);
        if is_code_ext(e) {
            FileIconKind::Code
        } else if is_markdown_ext(e) {
            FileIconKind::Markdown
        } else if is_text_ext(e) {
            FileIconKind::Text
        } else if is_media_ext(e) {
            FileIconKind::Media
        } else if e == "pdf"@ {
            FileIconKind::Pdf
        } else if is_archive_ext(e) {
            FileIconKind::Archive
        } else {
            FileIconKind::Generic
        }
    }
}

/// The Nerd Font glyph of each icon family.
pub open spec fn kind_glyph(k: FileIconKind) -> Seq<char> {
    match k {
        FileIconKind::Code => "\u{eae9}"@,
        FileIconKind::Markdown => "\u{eb1d}"@,
        FileIconKind::Text => "\u{ea7b}"@,
        FileIconKind::Media => "\u{eaea}"@,
        FileIconKind::Pdf => "\u{eaeb}"@,
        FileIconKind::Archive => "\u{eaef}"@,
        FileIconKind::Docker => "\u{e7b0}"@,
        FileIconKind::Generic => "\u{ea7b}"@,
    }
}

/// The icon `file` shows: an open or closed folder for directories, else the
/// glyph of the name's family.
pub open spec fn file_glyph(name: Seq<char>, is_dir: bool, opened: bool) -> Seq<char> {
    if is_dir {
        if opened { "\u{eaf7}"@ } else { "\u{ea83}"@ }
    } else {
        kind_glyph(kind_spec(name))
    }
}

/// The text after the last `.` of `s`, or all of `s` without one.
fn extension_of(s: &str) -> (r: String)
    ensures
        r@ == extension(s@),
{
    let v = chars::str_chars(s);
    let mut i: usize = v.len();
    while i > 0 && v[i - 1] != '.'
        invariant
            i <= v@.len(),
            v@ == s@,
            last_dot(v@, i as int) == last_dot(v@, v@.len() as int),
        decreases i,
    {
        i -= 1;
    }
    chars::range_string(&v, i, v.len())
}

fn code_ext(e: &str) -> (r: bool)
    ensures
        r == is_code_ext(e@),
{
    chars::same_text(e, "rs") || chars::same_text(e, "py") || chars::same_text(e, "js")
        || chars::same_text(e, "jsx") || chars::same_text(e, "ts") || chars::same_text(e, "tsx")
        || chars::same_text(e, "go") || chars::same_text(e, "java") || chars::same_text(e, "c")
        || chars::same_text(e, "h") || chars::same_text(e, "cpp") || chars::same_text(e, "hpp")
        || chars::same_text(e, "cs") || chars::same_text(e, "rb") || chars::same_text(e, "php")
        || chars::same_text(e, "swift") || chars::same_text(e, "kt") || chars::same_text(e, "kts")
        || chars::same_text(e, "zig") || chars::same_text(e, "lua") || chars::same_text(e, "sh")
        || chars::same_text(e, "fish") || chars::same_text(e, "vim")
}

fn markdown_ext(e: &str) -> (r: bool)
    ensures
        r == is_markdown_ext(e@),
{
    chars::same_text(e, "md") || chars::same_text(e, "markdown")
}

fn text_ext(e: &str) -> (r: bool)
    ensures
        r == is_text_ext(e@),
{
    chars::same_text(e, "txt") || chars::same_text(e, "rst") || chars::same_text(e, "adoc")
        || chars::same_text(e, "log")
}

fn media_ext(e: &str) -> (r: bool)
    ensures
        r == is_media_ext(e@),
{
    chars::same_text(e, "png") || chars::same_text(e, "jpg") || chars::same_text(e, "jpeg")
        || chars::same_text(e, "gif") || chars::same_text(e, "svg") || chars::same_text(e, "webp")
        || chars::same_text(e, "bmp") || chars::same_text(e, "ico")
}

fn archive_ext(e: &str) -> (r: bool)
    ensures
        r == is_archive_ext(e@),
{
    chars::same_text(e, "zip") || chars::same_text(e, "tar") || chars::same_text(e, "gz")
        || chars::same_text(e, "bz2") || chars::same_text(e, "xz") || chars::same_text(e, "7z")
}

/// The icon family of a file name.
pub fn kind(name: &str) -> (k: FileIconKind)
    ensures
        k == kind_spec(name@),
{
    let lower = chars::to_lower(name);
    if chars::same_text(name, "Dockerfile") || chars::same_text(name, ".dockerignore")
        || chars::same_text(lower.as_str(), "docker-compose.yml") || chars::same_text(
        lower.as_str(),
        "docker-compose.yaml",
    ) {
        return FileIconKind::Docker;
    }
    let e = extension_of(lower.as_str());
    let e = e.as_str();
    if code_ext(e) {
        FileIconKind::Code
    } else if markdown_ext(e) {
        FileIconKind::Markdown
    } else if text_ext(e) {
        FileIconKind::Text
    } else if media_ext(e) {
        FileIconKind::Media
    } else if chars::same_text(e, "pdf") {
        FileIconKind::Pdf
    } else if archive_ext(e) {
        FileIconKind::Archive
    } else {
        FileIconKind::Generic
    }
}

/// Returns a one-cell file or folder icon for the non-ASCII explorer view.
pub fn file(name: &str, is_dir: bool, opened: bool) -> (r: &'static str)
    ensures
        r@ == file_glyph(name@, is_dir, opened),
{
    if is_dir {
        return if opened { "\u{eaf7}" } else { "\u{ea83}" };
    }
    match kind(name) {
        FileIconKind::Code => "\u{eae9}",
        FileIconKind::Markdown => "\u{eb1d}",
        FileIconKind::Text => "\u{ea7b}",
        FileIconKind::Media => "\u{eaea}",
        FileIconKind::Pdf => "\u{eaeb}",
        FileIconKind::Archive => "\u{eaef}",
        FileIconKind::Docker => "\u{e7b0}",
        FileIconKind::Generic => "\u{ea7b}",
    }
}

} // verus!
