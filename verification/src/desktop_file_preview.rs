//! Previews of files: which file is meant, and what is shown of it.

use crate::observation_cas::agrees;
use crate::sse::utf8_text;
use crate::text::{
    after_prefix, begins_with, blank, law_trimming_takes_off_the_whitespace_around, ascii_lowercase, concat2, concat3, decimal, decimal_text, lowered,
    optional_text, strip_prefix, strip_prefixes, text_equals, trim, trimmed, without_prefixes,
};
use base64::Engine;
use vstd::prelude::*;
use vstd::utf8::{decode_utf8, valid_utf8};

verus! {

pub const DESKTOP_FILE_PREVIEW_MAX_BYTES: u64 = 26214400;

/// A request for a preview.
#[derive(Debug)]
pub struct DesktopFilePreviewReadRequest {
    pub path: String,
    pub workspace_root: Option<String>,
    pub base_path: Option<String>,
}

/// What kind of path a text is.
#[derive(Clone, Copy, Debug, PartialEq, Eq, Structural)]
pub enum PathKind {
    Absolute,
    /// It begins with a drive or a root, but is not absolute.
    Rooted,
    Relative,
}

/// The path that a user has typed: without whitespace round it and without the prefix that
/// Windows puts before long paths.
pub open spec fn user_path(raw: Seq<char>) -> Seq<char> {
    without_prefixes(trimmed(raw), "\\\\?\\"@)
}

/// The path that a user has typed.
pub fn user_supplied_path(raw: &str) -> (result: String)
    ensures
        result@ == user_path(raw@),
{
    proof {
        reveal_strlit("\\\\?\\");
    }
    strip_prefixes(trim(raw), "\\\\?\\").to_owned()
}

/// The file that a preview is asked for.
#[derive(Debug)]
pub enum PreviewTarget {
    Absolute(String),
    Relative { path: String, base: String },
}

pub enum TargetView {
    Absolute(Seq<char>),
    Relative { path: Seq<char>, base: Seq<char> },
}

impl View for PreviewTarget {
    type V = TargetView;

    open spec fn view(&self) -> TargetView {
        match self {
            PreviewTarget::Absolute(path) => TargetView::Absolute(path@),
            PreviewTarget::Relative { path, base } => TargetView::Relative {
                path: path@,
                base: base@,
            },
        }
    }
}

/// The text in an optional text that is not blank, without whitespace round it.
pub open spec fn not_blank(value: Option<Seq<char>>) -> Option<Seq<char>> {
    match value {
        Some(text) => if trimmed(text).len() > 0 {
            Some(trimmed(text))
        } else {
            None
        },
        None => None,
    }
}

/// The file that a request asks for: an absolute path, or a path below the base path or else the
/// root of the workspace. `kind` is the kind of the path that the user has typed.
pub open spec fn preview_target(request: DesktopFilePreviewReadRequest, kind: PathKind) -> Result<
    TargetView,
    Seq<char>,
> {
    if trimmed(request.path@).len() == 0 {
        Err("desktop file preview path is empty"@)
    } else if kind == PathKind::Absolute {
        Ok(TargetView::Absolute(user_path(trimmed(request.path@))))
    } else if kind == PathKind::Rooted {
        Err("desktop file preview relative path cannot include a drive or root"@)
    } else {
        let base = match not_blank(optional_text(request.base_path)) {
            Some(base) => Some(base),
            None => not_blank(optional_text(request.workspace_root)),
        };
        match base {
            None => Err(
                "desktop file preview requires an absolute path or basePath/workspaceRoot"@,
            ),
            Some(base) => Ok(
                TargetView::Relative {
                    path: user_path(trimmed(request.path@)),
                    base: user_path(base),
                },
            ),
        }
    }
}

fn take_not_blank(value: &Option<String>) -> (result: Option<String>)
    ensures
        optional_text(result) == not_blank(optional_text(*value)),
{
    match value {
        Some(text) => {
            let content = trim(text.as_str());
            if content.is_empty() {
                None
            } else {
                Some(content.to_owned())
            }
        },
        None => None,
    }
}

/// The file that a request asks for. `kind` is the kind of the path that the user has typed.
pub fn resolve_desktop_preview_file(
    request: &DesktopFilePreviewReadRequest,
    kind: PathKind,
) -> (result: Result<PreviewTarget, String>)
    ensures
        agrees(result, |target: PreviewTarget| target@, preview_target(*request, kind)),
{
    let raw = trim(request.path.as_str());
    if raw.is_empty() {
        return Err("desktop file preview path is empty".to_owned());
    }
    match kind {
        PathKind::Absolute => {
            return Ok(PreviewTarget::Absolute(user_supplied_path(raw)));
        },
        PathKind::Rooted => {
            return Err(
                "desktop file preview relative path cannot include a drive or root".to_owned(),
            );
        },
        PathKind::Relative => {},
    }
    let base = match take_not_blank(&request.base_path) {
        Some(base) => base,
        None => match take_not_blank(&request.workspace_root) {
            Some(base) => base,
            None => {
                return Err(
                    "desktop file preview requires an absolute path or basePath/workspaceRoot".to_owned(),
                );
            },
        },
    };
    Ok(
        PreviewTarget::Relative {
            path: user_supplied_path(raw),
            base: user_supplied_path(base.as_str()),
        },
    )
}

/// What looking a path up came to.
#[derive(Debug)]
pub enum FoundPath {
    Failed(String),
    File { path: String, parent: Option<String> },
    Directory(String),
    Other,
}

/// The directory that relative paths are below.
pub fn canonical_preview_base_path(found: &FoundPath) -> (result: Result<String, String>)
    ensures
        agrees(
            result,
            |path: String| path@,
            match found {
                FoundPath::Failed(error) => Err(
                    "resolve desktop preview base path failed: "@ + error@,
                ),
                FoundPath::File { path, parent } => match parent {
                    Some(parent) => Ok(parent@),
                    None => Err("desktop preview base file has no parent"@),
                },
                FoundPath::Directory(path) => Ok(path@),
                FoundPath::Other => Err("desktop preview base path is not a directory"@),
            },
        ),
{
    match found {
        FoundPath::Failed(error) => Err(
            concat2("resolve desktop preview base path failed: ", error.as_str()),
        ),
        FoundPath::File { path: _, parent } => match parent {
            Some(parent) => Ok(parent.clone()),
            None => Err("desktop preview base file has no parent".to_owned()),
        },
        FoundPath::Directory(path) => Ok(path.clone()),
        FoundPath::Other => Err("desktop preview base path is not a directory".to_owned()),
    }
}

/// The file that is previewed.
pub fn canonical_preview_file_path(found: &FoundPath) -> (result: Result<String, String>)
    ensures
        agrees(
            result,
            |path: String| path@,
            match found {
                FoundPath::Failed(error) => Err("resolve desktop preview file failed: "@ + error@),
                FoundPath::File { path, parent } => Ok(path@),
                _ => Err("desktop preview path is not a file"@),
            },
        ),
{
    match found {
        FoundPath::Failed(error) => Err(
            concat2("resolve desktop preview file failed: ", error.as_str()),
        ),
        FoundPath::File { path, parent: _ } => Ok(path.clone()),
        _ => Err("desktop preview path is not a file".to_owned()),
    }
}

/// The root that is shown for an absolute path: the directory above the file.
pub fn preview_root_for_file(parent: &Option<String>) -> (result: Result<String, String>)
    ensures
        agrees(
            result,
            |path: String| path@,
            match parent {
                Some(parent) => Ok(parent@),
                None => Err("desktop preview file has no parent"@),
            },
        ),
{
    match parent {
        Some(parent) => Ok(parent.clone()),
        None => Err("desktop preview file has no parent".to_owned()),
    }
}

/// Accepts a file that is not too large to be shown.
pub fn check_preview_length(length: u64) -> (result: Result<(), String>)
    ensures
        match result {
            Ok(_) => length <= DESKTOP_FILE_PREVIEW_MAX_BYTES,
            Err(message) => length > DESKTOP_FILE_PREVIEW_MAX_BYTES && message@
                == "desktop file preview is too large ("@ + decimal(length as nat)
                + " bytes, max "@ + decimal(DESKTOP_FILE_PREVIEW_MAX_BYTES as nat) + ")"@,
        },
{
    if length > DESKTOP_FILE_PREVIEW_MAX_BYTES {
        let number = decimal_text(length);
        let maximum = decimal_text(DESKTOP_FILE_PREVIEW_MAX_BYTES);
        let mut message = concat3(
            "desktop file preview is too large (",
            number.as_str(),
            " bytes, max ",
        );
        message.append(maximum.as_str());
        message.append(")");
        return Err(message);
    }
    Ok(())
}

/// The type of the image that a file with the given extension holds.
pub open spec fn image_type(extension: Seq<char>) -> Option<Seq<char>> {
    let lower = lowered(trimmed(extension));
    if lower == "png"@ {
        Some("image/png"@)
    } else if lower == "jpg"@ || lower == "jpeg"@ {
        Some("image/jpeg"@)
    } else if lower == "gif"@ {
        Some("image/gif"@)
    } else if lower == "webp"@ {
        Some("image/webp"@)
    } else if lower == "bmp"@ {
        Some("image/bmp"@)
    } else if lower == "ico"@ {
        Some("image/x-icon"@)
    } else if lower == "svg"@ {
        Some("image/svg+xml"@)
    } else {
        None
    }
}

/// The type of the image that a file with the given extension holds.
pub fn preview_image_mime_type(extension: &str) -> (result: Option<&'static str>)
    ensures
        match result {
            Some(text) => image_type(extension@) == Some(text@),
            None => image_type(extension@) == None::<Seq<char>>,
        },
{
    let lower = ascii_lowercase(trim(extension));
    let lower = lower.as_str();
    if text_equals(lower, "png") {
        Some("image/png")
    } else if text_equals(lower, "jpg") || text_equals(lower, "jpeg") {
        Some("image/jpeg")
    } else if text_equals(lower, "gif") {
        Some("image/gif")
    } else if text_equals(lower, "webp") {
        Some("image/webp")
    } else if text_equals(lower, "bmp") {
        Some("image/bmp")
    } else if text_equals(lower, "ico") {
        Some("image/x-icon")
    } else if text_equals(lower, "svg") {
        Some("image/svg+xml")
    } else {
        None
    }
}

/// Whether a file with the given extension holds a PDF document.
pub fn is_pdf_path(extension: &str) -> (result: bool)
    ensures
        result == (lowered(trimmed(extension@)) == "pdf"@),
{
    let lower = ascii_lowercase(trim(extension));
    text_equals(lower.as_str(), "pdf")
}

/// The character of six bits in the standard alphabet of base64.
pub open spec fn base64_char(value: int) -> char {
    if value < 26 {
        ('A' as u32 + value) as char
    } else if value < 52 {
        ('a' as u32 + value - 26) as char
    } else if value < 62 {
        ('0' as u32 + value - 52) as char
    } else if value == 62 {
        '+'
    } else {
        '/'
    }
}

/// Bytes in base64, with the standard alphabet and padding.
pub open spec fn base64_text(bytes: Seq<u8>) -> Seq<char>
    decreases bytes.len(),
{
    if bytes.len() == 0 {
        Seq::empty()
    } else {
        let a = bytes[0] as int;
        let b = if bytes.len() > 1 {
            bytes[1] as int
        } else {
            0
        };
        let c = if bytes.len() > 2 {
            bytes[2] as int
        } else {
            0
        };
        seq![
            base64_char(a / 4),
            base64_char(a % 4 * 16 + b / 16),
            if bytes.len() > 1 {
                base64_char(b % 16 * 4 + c / 64)
            } else {
                '='
            },
            if bytes.len() > 2 {
                base64_char(c % 64)
            } else {
                '='
            },
        ] + (if bytes.len() <= 3 {
            Seq::empty()
        } else {
            base64_text(bytes.subrange(3, bytes.len() as int))
        })
    }
}

/// Encodes bytes with `base64::engine::general_purpose::STANDARD`, which uses the standard alphabet
/// and padding.
#[verifier::external_body]
pub(crate) fn base64_encode(bytes: &[u8]) -> (result: String)
    ensures
        result@ == base64_text(bytes@),
{
    base64::engine::general_purpose::STANDARD.encode(bytes)
}

/// Bytes as a URL that holds them.
pub open spec fn data_url_of(mime_type: Seq<char>, bytes: Seq<u8>) -> Seq<char> {
    "data:"@ + mime_type + ";base64,"@ + base64_text(bytes)
}

/// Bytes as a URL that holds them.
pub fn data_url(mime_type: &str, bytes: &[u8]) -> (result: String)
    ensures
        result@ == data_url_of(mime_type@, bytes@),
{
    let mut url = concat3("data:", mime_type, ";base64,");
    let encoded = base64_encode(bytes);
    url.append(encoded.as_str());
    url
}

/// A path as it is shown: without the prefixes that Windows puts before long paths.
pub open spec fn shown_path(raw: Seq<char>) -> Seq<char> {
    match after_prefix(raw, "\\\\?\\UNC\\"@) {
        Some(rest) => "\\\\"@ + rest,
        None => match after_prefix(raw, "\\\\?\\"@) {
            Some(rest) => rest,
            None => raw,
        },
    }
}

/// A path as it is shown.
pub fn display_path(raw: &str) -> (result: String)
    ensures
        result@ == shown_path(raw@),
{
    match strip_prefix(raw, "\\\\?\\UNC\\") {
        Some(rest) => concat2("\\\\", rest),
        None => match strip_prefix(raw, "\\\\?\\") {
            Some(rest) => rest.to_owned(),
            None => raw.to_owned(),
        },
    }
}

/// A file that was read for a preview.
#[derive(Debug)]
pub struct PreviewFile {
    pub root: String,
    pub path: String,
    pub file_name: Option<String>,
    pub extension: Option<String>,
    pub bytes: Vec<u8>,
}

/// A preview.
#[derive(Debug)]
pub struct DesktopFilePreviewReadResponse {
    pub root: String,
    pub path: String,
    pub name: String,
    pub content: String,
    pub byte_len: u64,
    pub encoding: &'static str,
    pub content_kind: &'static str,
    pub mime_type: &'static str,
    pub data_url: Option<String>,
}

pub struct PreviewView {
    pub root: Seq<char>,
    pub path: Seq<char>,
    pub name: Seq<char>,
    pub content: Seq<char>,
    pub byte_len: int,
    pub encoding: Seq<char>,
    pub content_kind: Seq<char>,
    pub mime_type: Seq<char>,
    pub data_url: Option<Seq<char>>,
}

impl View for DesktopFilePreviewReadResponse {
    type V = PreviewView;

    open spec fn view(&self) -> PreviewView {
        PreviewView {
            root: self.root@,
            path: self.path@,
            name: self.name@,
            content: self.content@,
            byte_len: self.byte_len as int,
            encoding: self.encoding@,
            content_kind: self.content_kind@,
            mime_type: self.mime_type@,
            data_url: optional_text(self.data_url),
        }
    }
}

/// A preview of a file that is shown by its bytes.
pub open spec fn encoded_preview(
    file: PreviewFile,
    content_kind: Seq<char>,
    mime_type: Seq<char>,
) -> PreviewView {
    PreviewView {
        root: shown_path(file.root@),
        path: shown_path(file.path@),
        name: shown_name(file),
        content: Seq::empty(),
        byte_len: file.bytes@.len() as int,
        encoding: "base64"@,
        content_kind,
        mime_type,
        data_url: Some(data_url_of(mime_type, file.bytes@)),
    }
}

/// The name that is shown of a file.
pub open spec fn shown_name(file: PreviewFile) -> Seq<char> {
    match file.file_name {
        Some(name) => name@,
        None => shown_path(file.path@),
    }
}

/// The preview of a file: an image or a PDF document by its bytes, and a text without the mark
/// of its byte order.
pub open spec fn preview_of(file: PreviewFile) -> Result<PreviewView, Seq<char>> {
    let image = match file.extension {
        Some(extension) => image_type(extension@),
        None => None,
    };
    let pdf = match file.extension {
        Some(extension) => lowered(trimmed(extension@)) == "pdf"@,
        None => false,
    };
    if image is Some {
        Ok(encoded_preview(file, "image"@, image->0))
    } else if pdf {
        Ok(encoded_preview(file, "pdf"@, "application/pdf"@))
    } else if valid_utf8(file.bytes@) {
        Ok(
            PreviewView {
                root: shown_path(file.root@),
                path: shown_path(file.path@),
                name: shown_name(file),
                content: without_prefixes(decode_utf8(file.bytes@), "\u{feff}"@),
                byte_len: file.bytes@.len() as int,
                encoding: "utf-8"@,
                content_kind: "text"@,
                mime_type: "text/plain; charset=utf-8"@,
                data_url: None,
            },
        )
    } else {
        Err("desktop file preview supports UTF-8 text, images, and PDF only"@)
    }
}

fn preview_name(file: &PreviewFile) -> (result: String)
    ensures
        result@ == shown_name(*file),
{
    match &file.file_name {
        Some(name) => name.clone(),
        None => display_path(file.path.as_str()),
    }
}

fn encode_preview(
    file: &PreviewFile,
    content_kind: &'static str,
    mime_type: &'static str,
) -> (result: DesktopFilePreviewReadResponse)
    ensures
        result@ == encoded_preview(*file, content_kind@, mime_type@),
{
    DesktopFilePreviewReadResponse {
        root: display_path(file.root.as_str()),
        path: display_path(file.path.as_str()),
        name: preview_name(file),
        content: String::new(),
        byte_len: file.bytes.len() as u64,
        encoding: "base64",
        content_kind,
        mime_type,
        data_url: Some(data_url(mime_type, file.bytes.as_slice())),
    }
}

/// The preview of a file.
pub fn read_desktop_preview_file(file: &PreviewFile) -> (result: Result<
    DesktopFilePreviewReadResponse,
    String,
>)
    ensures
        agrees(
            result,
            |response: DesktopFilePreviewReadResponse| response@,
            preview_of(*file),
        ),
{
    match &file.extension {
        Some(extension) => {
            match preview_image_mime_type(extension.as_str()) {
                Some(mime_type) => {
                    return Ok(encode_preview(file, "image", mime_type));
                },
                None => {},
            }
            if is_pdf_path(extension.as_str()) {
                return Ok(encode_preview(file, "pdf", "application/pdf"));
            }
        },
        None => {},
    }
    match utf8_text(file.bytes.as_slice()) {
        Ok(text) => {
            proof {
                reveal_strlit("\u{feff}");
            }
            let content = strip_prefixes(text.as_str(), "\u{feff}").to_owned();
            Ok(
                DesktopFilePreviewReadResponse {
                    root: display_path(file.root.as_str()),
                    path: display_path(file.path.as_str()),
                    name: preview_name(file),
                    content,
                    byte_len: file.bytes.len() as u64,
                    encoding: "utf-8",
                    content_kind: "text",
                    mime_type: "text/plain; charset=utf-8",
                    data_url: None,
                },
            )
        },
        Err(_) => Err("desktop file preview supports UTF-8 text, images, and PDF only".to_owned()),
    }
}

/// A preview is read exactly where a path is given that is absolute, or relative without a root of
/// its own and with a base to be read from: the base that is given before the workspace.
pub proof fn law_previews_are_read_from_their_base(
    request: DesktopFilePreviewReadRequest,
    kind: PathKind,
    target: PreviewTarget,
)
    ensures
        ({
            let based = request.base_path is Some && !blank(request.base_path->0@);
            let rooted = request.workspace_root is Some && !blank(request.workspace_root->0@);
            &&& preview_target(request, kind) is Ok <==> !blank(request.path@) && (kind
                == PathKind::Absolute || (kind == PathKind::Relative && (based || rooted)))
            &&& preview_target(request, kind) == Ok::<TargetView, Seq<char>>(target@) ==> match target {
                PreviewTarget::Absolute(path) => kind == PathKind::Absolute && path@ == user_path(
                    trimmed(request.path@),
                ),
                PreviewTarget::Relative { path, base } => kind == PathKind::Relative && path@
                    == user_path(trimmed(request.path@)) && base@ == user_path(
                    if based {
                        trimmed(request.base_path->0@)
                    } else {
                        trimmed(request.workspace_root->0@)
                    },
                ),
            }
        }),
{
    law_trimming_takes_off_the_whitespace_around(request.path@);
    if request.base_path is Some {
        law_trimming_takes_off_the_whitespace_around(request.base_path->0@);
    }
    if request.workspace_root is Some {
        law_trimming_takes_off_the_whitespace_around(request.workspace_root->0@);
    }
}

/// Whether a file has one of several extensions, in letters of any case.
pub open spec fn has_extension(file: PreviewFile, extensions: Seq<Seq<char>>) -> bool {
    file.extension matches Some(extension) && extensions.contains(lowered(trimmed(extension@)))
}

/// The extensions of the images that can be shown.
pub open spec fn image_extensions() -> Seq<Seq<char>> {
    seq![
        "png"@,
        "jpg"@,
        "jpeg"@,
        "gif"@,
        "webp"@,
        "bmp"@,
        "ico"@,
        "svg"@,
    ]
}

/// A file is shown exactly where it is an image or a PDF by its extension, or text in UTF-8. Images
/// and PDFs are shown by their bytes, text by its characters without the marks of byte order before
/// them; the length is always that of the bytes.
pub proof fn law_previews_show_what_the_file_holds(
    file: PreviewFile,
    preview: DesktopFilePreviewReadResponse,
)
    ensures
        ({
            let image = has_extension(file, image_extensions());
            let pdf = has_extension(file, seq!["pdf"@]);
            &&& preview_of(file) is Ok <==> image || pdf || valid_utf8(file.bytes@)
            &&& preview_of(file) == Ok::<PreviewView, Seq<char>>(preview@) ==> {
                &&& preview.byte_len == file.bytes@.len()
                &&& preview.root@ == shown_path(file.root@)
                &&& preview.path@ == shown_path(file.path@)
                &&& file.file_name is Some ==> preview.name@ == file.file_name->0@
                &&& file.file_name is None ==> preview.name@ == shown_path(file.path@)
                &&& image || pdf ==> preview.content@.len() == 0 && preview.encoding@ == "base64"@
                    && (preview.data_url matches Some(url) && url@ == "data:"@ + preview.mime_type@
                    + ";base64,"@ + base64_text(file.bytes@))
                &&& image ==> preview.content_kind@ == "image"@
                &&& !image && pdf ==> preview.content_kind@ == "pdf"@ && preview.mime_type@
                    == "application/pdf"@
                &&& !image && !pdf ==> preview.content_kind@ == "text"@ && preview.encoding@
                    == "utf-8"@ && preview.data_url is None && preview.content@ == without_prefixes(
                    decode_utf8(file.bytes@),
                    "\u{feff}"@,
                )
            }
        }),
{
    let known = image_extensions();
    if file.extension is Some {
        let lower = lowered(trimmed(file.extension->0@));
        assert(known[0] == "png"@ && known[1] == "jpg"@ && known[2] == "jpeg"@ && known[3] == "gif"@
            && known[4] == "webp"@ && known[5] == "bmp"@ && known[6] == "ico"@ && known[7]
            == "svg"@);
        assert(image_type(file.extension->0@) is Some <==> known.contains(lower));
        assert(seq!["pdf"@][0] == "pdf"@);
        assert(seq!["pdf"@].contains(lower) <==> lower == "pdf"@);
    }
}

/// The type of an image is that of its extension; two extensions have one type only where they name
/// the same form.
pub proof fn law_images_have_the_type_of_their_extension(extension: Seq<char>)
    ensures
        lowered(trimmed(extension)) == "png"@ ==> image_type(extension) == Some("image/png"@),
        lowered(trimmed(extension)) == "jpg"@ || lowered(trimmed(extension)) == "jpeg"@
            ==> image_type(extension) == Some("image/jpeg"@),
        lowered(trimmed(extension)) == "gif"@ ==> image_type(extension) == Some("image/gif"@),
        lowered(trimmed(extension)) == "webp"@ ==> image_type(extension) == Some("image/webp"@),
        lowered(trimmed(extension)) == "bmp"@ ==> image_type(extension) == Some("image/bmp"@),
        lowered(trimmed(extension)) == "ico"@ ==> image_type(extension) == Some("image/x-icon"@),
        lowered(trimmed(extension)) == "svg"@ ==> image_type(extension) == Some("image/svg+xml"@),
{
    reveal_strlit("png");
    reveal_strlit("jpg");
    reveal_strlit("jpeg");
    reveal_strlit("gif");
    reveal_strlit("webp");
    reveal_strlit("bmp");
    reveal_strlit("ico");
    reveal_strlit("svg");
    assert("png"@[0] == 'p' && "jpg"@[0] == 'j' && "jpeg"@[0] == 'j' && "gif"@[0] == 'g'
        && "webp"@[0] == 'w' && "bmp"@[0] == 'b' && "ico"@[0] == 'i' && "svg"@[0] == 's');
}

/// The number that a character stands for in base 64.
pub open spec fn base64_value(c: char) -> int {
    if 'A' <= c && c <= 'Z' {
        c as int - 'A' as int
    } else if 'a' <= c && c <= 'z' {
        c as int - 'a' as int + 26
    } else if '0' <= c && c <= '9' {
        c as int - '0' as int + 52
    } else if c == '+' {
        62
    } else {
        63
    }
}

/// The bytes that a text in base 64 stands for: three for each four characters, and one fewer for
/// each equals sign.
pub open spec fn base64_bytes(text: Seq<char>) -> Seq<int>
    decreases text.len(),
{
    if text.len() < 4 {
        Seq::empty()
    } else {
        let bits = base64_value(text[0]) * 262144 + base64_value(text[1]) * 4096 + (if text[2] == '=' {
            0
        } else {
            base64_value(text[2]) * 64
        }) + (if text[3] == '=' {
            0
        } else {
            base64_value(text[3])
        });
        let group = seq![bits / 65536, bits / 256 % 256, bits % 256];
        let rest = base64_bytes(text.subrange(4, text.len() as int));
        if text[2] == '=' {
            group.subrange(0, 1)
        } else if text[3] == '=' {
            group.subrange(0, 2)
        } else {
            group + rest
        }
    }
}

proof fn lemma_base64_value(value: int)
    requires
        0 <= value < 64,
    ensures
        base64_value(base64_char(value)) == value,
        base64_char(value) != '=',
{
}

proof fn lemma_bits(a: int, b: int, c: int)
    requires
        0 <= a < 256,
        0 <= b < 256,
        0 <= c < 256,
    ensures
        ({
            let bits = a / 4 * 262144 + (a % 4 * 16 + b / 16) * 4096 + (b % 16 * 4 + c / 64) * 64 + c
                % 64;
            bits / 65536 == a && bits / 256 % 256 == b && bits % 256 == c
        }),
{
    assert(a == a / 4 * 4 + a % 4);
    assert(b == b / 16 * 16 + b % 16);
    assert(c == c / 64 * 64 + c % 64);
    let bits = a / 4 * 262144 + (a % 4 * 16 + b / 16) * 4096 + (b % 16 * 4 + c / 64) * 64 + c % 64;
    assert(bits == a * 65536 + b * 256 + c);
    assert(bits / 256 == a * 256 + b);
}

proof fn lemma_base64_group(bytes: Seq<u8>, rest: Seq<char>)
    requires
        bytes.len() > 0,
        rest == (if bytes.len() <= 3 {
            Seq::empty()
        } else {
            base64_text(bytes.subrange(3, bytes.len() as int))
        }),
    ensures
        ({
            let text = base64_text(bytes);
            let given = base64_bytes(text);
            &&& text.len() == 4 + rest.len()
            &&& bytes.len() == 1 ==> given.len() == 1 && given[0] == bytes[0]
            &&& bytes.len() == 2 ==> given.len() == 2 && given[0] == bytes[0] && given[1]
                == bytes[1]
            &&& bytes.len() >= 3 ==> given == seq![
                bytes[0] as int,
                bytes[1] as int,
                bytes[2] as int,
            ] + base64_bytes(rest)
        }),
{
    let a = bytes[0] as int;
    let b = if bytes.len() > 1 {
        bytes[1] as int
    } else {
        0
    };
    let c = if bytes.len() > 2 {
        bytes[2] as int
    } else {
        0
    };
    lemma_base64_value(a / 4);
    lemma_base64_value(a % 4 * 16 + b / 16);
    lemma_base64_value(b % 16 * 4 + c / 64);
    lemma_base64_value(c % 64);
    lemma_bits(a, b, c);
    let text = base64_text(bytes);
    assert(text.len() == 4 + rest.len());
    assert(text[0] == base64_char(a / 4));
    assert(text[1] == base64_char(a % 4 * 16 + b / 16));
    assert(text.subrange(4, text.len() as int) =~= rest);
}

/// The bytes of a file are read back from its text in base 64.
pub proof fn law_base64_reads_back(bytes: Seq<u8>)
    ensures
        base64_bytes(base64_text(bytes)) == Seq::new(bytes.len(), |i: int| bytes[i] as int),
        base64_text(bytes).len() == (bytes.len() + 2) / 3 * 4,
    decreases bytes.len(),
{
    let given = Seq::new(bytes.len(), |i: int| bytes[i] as int);
    if bytes.len() == 0 {
        assert(base64_bytes(base64_text(bytes)) =~= given);
    } else if bytes.len() <= 3 {
        lemma_base64_group(bytes, Seq::empty());
        assert(base64_bytes(Seq::empty()) =~= Seq::<int>::empty());
        assert(base64_bytes(base64_text(bytes)) =~= given);
    } else {
        let tail = bytes.subrange(3, bytes.len() as int);
        law_base64_reads_back(tail);
        lemma_base64_group(bytes, base64_text(tail));
        assert(base64_bytes(base64_text(bytes)) =~= given);
    }
}

/// How the path of a file is shown: without the mark of a long path, with the mark of a share in
/// place of the mark of a long path to one, and else as it is.
pub proof fn law_long_paths_are_shown_short(rest: Seq<char>)
    ensures
        shown_path("\\\\?\\UNC\\"@ + rest) == "\\\\"@ + rest,
        !begins_with("\\\\?\\"@ + rest, "\\\\?\\UNC\\"@) ==> shown_path("\\\\?\\"@ + rest) == rest,
        !begins_with(rest, "\\\\?\\UNC\\"@) && !begins_with(rest, "\\\\?\\"@) ==> shown_path(rest)
            == rest,
{
    let share = "\\\\?\\UNC\\"@;
    let long = "\\\\?\\"@;
    assert((share + rest).subrange(0, share.len() as int) =~= share);
    assert((share + rest).subrange(share.len() as int, (share + rest).len() as int) =~= rest);
    assert((long + rest).subrange(0, long.len() as int) =~= long);
    assert((long + rest).subrange(long.len() as int, (long + rest).len() as int) =~= rest);
}

} // verus!
