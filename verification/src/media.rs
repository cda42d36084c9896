//! Input source handling and media-kind detection.
//!
//! Detection uses two signals: the file extension and the leading "magic" bytes of the file. Magic
//! bytes are authoritative when they yield a confident match (they survive renamed files); the
//! extension is the fallback and the only signal for text formats such as OBJ that have no reliable
//! magic number.

use crate::decode::starts;
use crate::text::{has_prefix, lowered, same_text, to_lower};
use vstd::prelude::*;
use vstd::string::*;

verus! {

/// Where the bytes to render come from.
#[derive(Debug, Clone, PartialEq, Eq)]
pub enum Input {
    /// A file on disk.
    File(String),
    /// Standard input (the `-` argument).
    Stdin,
}

impl Input {
    /// Parses a file argument into an [`Input`]. `-` maps to [`Input::Stdin`].
    pub fn parse(arg: &str) -> (i: Input)
        ensures
            arg@ == seq!['-'] ==> i is Stdin,
            arg@ != seq!['-'] ==> i is File && i->File_0@ == arg@,
    {
        if arg.unicode_len() == 1 && arg.get_char(0) == '-' {
            assert(arg@ =~= seq!['-']);
            Input::Stdin
        } else {
            Input::File(arg.to_owned())
        }
    }

    /// What this input is called in diagnostics.
    pub open spec fn spec_label(&self) -> Seq<char> {
        match self {
            Input::File(p) => p@,
            Input::Stdin => "<stdin>"@,
        }
    }

    /// A human-readable label for diagnostics.
    pub fn label(&self) -> (s: String)
        ensures
            s@ == self.spec_label(),
    {
        match self {
            Input::File(p) => p.clone(),
            Input::Stdin => "<stdin>".to_owned(),
        }
    }
}

/// The concrete file format family behind a mesh.
#[derive(Debug, Clone, Copy, PartialEq, Eq, Structural)]
pub enum MeshFormat {
    /// Wavefront OBJ (`.obj`).
    Obj,
    /// Stereolithography (`.stl`), ASCII or binary.
    Stl,
    /// glTF / GLB (`.gltf`, `.glb`).
    Gltf,
    /// Blender scene (`.blend`), loaded by exporting to glTF via a headless Blender.
    Blend,
}

/// The kind of media an input holds, as far as it is needed to route it to a viewer.
#[derive(Debug, Clone, Copy, PartialEq, Eq, Structural)]
pub enum MediaKind {
    /// A still raster image (png, jpeg, bmp, webp, …).
    Image,
    /// An animated GIF.
    Gif,
    /// A video container decoded frame by frame.
    Video,
    /// A 3D mesh in one of the supported formats.
    Mesh(MeshFormat),
    /// Nothing we recognize.
    Unknown,
}

/// The kind of the files with that extension, in lower case.
pub open spec fn extension_kind(ext: Seq<char>) -> MediaKind {
    if ext == "png"@ || ext == "jpg"@ || ext == "jpeg"@ || ext == "bmp"@ || ext == "webp"@ || ext
        == "tiff"@ || ext == "tif"@ || ext == "tga"@ {
        MediaKind::Image
    } else if ext == "gif"@ {
        MediaKind::Gif
    } else if ext == "mp4"@ || ext == "mkv"@ || ext == "mov"@ || ext == "webm"@ || ext == "avi"@
        || ext == "m4v"@ {
        MediaKind::Video
    } else if ext == "obj"@ {
        MediaKind::Mesh(MeshFormat::Obj)
    } else if ext == "stl"@ {
        MediaKind::Mesh(MeshFormat::Stl)
    } else if ext == "gltf"@ || ext == "glb"@ {
        MediaKind::Mesh(MeshFormat::Gltf)
    } else if ext == "blend"@ {
        MediaKind::Mesh(MeshFormat::Blend)
    } else {
        MediaKind::Unknown
    }
}

/// The kind that the leading bytes of a file give away, if they do.
pub open spec fn magic_kind(bytes: Seq<u8>) -> Option<MediaKind> {
    if starts(bytes, seq![0x89u8, 0x50, 0x4e, 0x47, 0x0d, 0x0a, 0x1a, 0x0a]) || starts(
        bytes,
        seq![0xffu8, 0xd8, 0xff],
    ) || starts(bytes, seq![0x42u8, 0x4d]) {
        Some(MediaKind::Image)
    } else if starts(bytes, seq![0x47u8, 0x49, 0x46, 0x38, 0x37, 0x61]) || starts(
        bytes,
        seq![0x47u8, 0x49, 0x46, 0x38, 0x39, 0x61],
    ) {
        Some(MediaKind::Gif)
    } else if starts(bytes, seq![0x67u8, 0x6c, 0x54, 0x46]) {
        Some(MediaKind::Mesh(MeshFormat::Gltf))
    } else if starts(bytes, seq![0x42u8, 0x4c, 0x45, 0x4e, 0x44, 0x45, 0x52]) {
        Some(MediaKind::Mesh(MeshFormat::Blend))
    } else if bytes.len() >= 12 && starts(bytes, seq![0x52u8, 0x49, 0x46, 0x46]) && starts(
        bytes.skip(8),
        seq![0x57u8, 0x45, 0x42, 0x50],
    ) {
        Some(MediaKind::Image)
    } else if bytes.len() >= 12 && starts(bytes, seq![0x52u8, 0x49, 0x46, 0x46]) && starts(
        bytes.skip(8),
        seq![0x41u8, 0x56, 0x49, 0x20],
    ) {
        Some(MediaKind::Video)
    } else if bytes.len() >= 8 && starts(bytes.skip(4), seq![0x66u8, 0x74, 0x79, 0x70]) {
        Some(MediaKind::Video)
    } else if starts(bytes, seq![0x1au8, 0x45, 0xdf, 0xa3]) {
        Some(MediaKind::Video)
    } else {
        None
    }
}

/// Whether the bytes from `at` on start with `tag`.
fn has_tag(bytes: &[u8], at: usize, tag: &[u8]) -> (r: bool)
    requires
        at + tag@.len() <= bytes@.len(),
    ensures
        r == starts(bytes@.skip(at as int), tag@),
{
    let ghost rest = bytes@.skip(at as int);
    let len: usize = bytes.len();
    let mut i: usize = 0;
    while i < tag.len()
        invariant
            len == bytes@.len(),
            at + tag@.len() <= bytes@.len(),
            rest == bytes@.skip(at as int),
            i <= tag@.len(),
            forall|k: int| 0 <= k < i ==> rest[k] == tag@[k],
        decreases tag@.len() - i,
    {
        assert(rest[i as int] == bytes@[at + i]);
        if bytes[at + i] != tag[i] {
            assert(rest.subrange(0, tag@.len() as int)[i as int] != tag@[i as int]);
            return false;
        }
        i = i + 1;
    }
    assert(tag@ =~= rest.subrange(0, tag@.len() as int));
    true
}

impl MediaKind {
    /// Classifies purely by a file extension (without the leading dot), in any case.
    ///
    /// Returns [`MediaKind::Unknown`] for anything unrecognized.
    pub fn from_extension(ext: &str) -> (k: MediaKind)
        ensures
            k == extension_kind(lowered(ext@)),
    {
        let low = to_lower(ext);
        let e = low.as_str();
        if same_text(e, "png") || same_text(e, "jpg") || same_text(e, "jpeg") || same_text(e, "bmp")
            || same_text(e, "webp") || same_text(e, "tiff") || same_text(e, "tif") || same_text(
            e,
            "tga",
        ) {
            MediaKind::Image
        } else if same_text(e, "gif") {
            MediaKind::Gif
        } else if same_text(e, "mp4") || same_text(e, "mkv") || same_text(e, "mov") || same_text(
            e,
            "webm",
        ) || same_text(e, "avi") || same_text(e, "m4v") {
            MediaKind::Video
        } else if same_text(e, "obj") {
            MediaKind::Mesh(MeshFormat::Obj)
        } else if same_text(e, "stl") {
            MediaKind::Mesh(MeshFormat::Stl)
        } else if same_text(e, "gltf") || same_text(e, "glb") {
            MediaKind::Mesh(MeshFormat::Gltf)
        } else if same_text(e, "blend") {
            MediaKind::Mesh(MeshFormat::Blend)
        } else {
            MediaKind::Unknown
        }
    }

    /// Classifies from the leading bytes of a file.
    ///
    /// Returns `None` when the bytes carry no confident signal (e.g. text formats), so the caller
    /// can fall back to the extension.
    pub fn from_magic(bytes: &[u8]) -> (k: Option<MediaKind>)
        ensures
            k == magic_kind(bytes@),
    {
        if has_prefix(bytes, &[0x89, 0x50, 0x4e, 0x47, 0x0d, 0x0a, 0x1a, 0x0a]) {
            return Some(MediaKind::Image);
        }
        if has_prefix(bytes, &[0xff, 0xd8, 0xff]) {
            return Some(MediaKind::Image);
        }
        if has_prefix(bytes, &[0x42, 0x4d]) {
            return Some(MediaKind::Image);
        }
        if has_prefix(bytes, &[0x47, 0x49, 0x46, 0x38, 0x37, 0x61]) || has_prefix(
            bytes,
            &[0x47, 0x49, 0x46, 0x38, 0x39, 0x61],
        ) {
            return Some(MediaKind::Gif);
        }
        if has_prefix(bytes, &[0x67, 0x6c, 0x54, 0x46]) {
            return Some(MediaKind::Mesh(MeshFormat::Gltf));
        }
        if has_prefix(bytes, &[0x42, 0x4c, 0x45, 0x4e, 0x44, 0x45, 0x52]) {
            return Some(MediaKind::Mesh(MeshFormat::Blend));
        }
        if bytes.len() >= 12 && has_prefix(bytes, &[0x52, 0x49, 0x46, 0x46]) {
            if has_tag(bytes, 8, &[0x57, 0x45, 0x42, 0x50]) {
                return Some(MediaKind::Image);
            }
            if has_tag(bytes, 8, &[0x41, 0x56, 0x49, 0x20]) {
                return Some(MediaKind::Video);
            }
        }
        if bytes.len() >= 8 && has_tag(bytes, 4, &[0x66, 0x74, 0x79, 0x70]) {
            return Some(MediaKind::Video);
        }
        if has_prefix(bytes, &[0x1a, 0x45, 0xdf, 0xa3]) {
            return Some(MediaKind::Video);
        }
        None
    }

    /// Whether this kind is something we can render.
    pub fn is_supported(self) -> (b: bool)
        ensures
            b == !(self is Unknown),
    {
        !matches!(self, MediaKind::Unknown)
    }
}

/// Combines magic-byte and extension detection.
///
/// `magic` may be empty (unknown) and `ext` may be `None`. Magic wins when confident; the
/// extension is the fallback; otherwise [`MediaKind::Unknown`].
pub fn detect_bytes(magic: &[u8], ext: Option<&str>) -> (k: MediaKind)
    ensures
        k == detected(
            magic@,
            match ext {
                Some(e) => Some(e@),
                None => None,
            },
        ),
{
    if let Some(kind) = MediaKind::from_magic(magic) {
        return kind;
    }
    if let Some(ext) = ext {
        return MediaKind::from_extension(ext);
    }
    MediaKind::Unknown
}

/// The kind of a file with these leading bytes and that extension.
pub open spec fn detected(magic: Seq<u8>, ext: Option<Seq<char>>) -> MediaKind {
    match magic_kind(magic) {
        Some(k) => k,
        None => match ext {
            Some(e) => extension_kind(lowered(e)),
            None => MediaKind::Unknown,
        },
    }
}

/// The kind of an input: that of the leading bytes and the extension for a file, of which a file
/// that cannot be read has no bytes; unknown for standard input, whose bytes come later.
pub fn detect(input: &Input, magic: &[u8], ext: Option<&str>) -> (k: MediaKind)
    ensures
        k == (match input {
            Input::File(_) => detected(
                magic@,
                match ext {
                    Some(e) => Some(e@),
                    None => None,
                },
            ),
            Input::Stdin => MediaKind::Unknown,
        }),
{
    match input {
        Input::File(_) => detect_bytes(magic, ext),
        Input::Stdin => MediaKind::Unknown,
    }
}

/// A confident signature outweighs any extension, so a renamed file keeps its kind.
pub proof fn law_magic_outweighs_extension(
    magic: Seq<u8>,
    a: Option<Seq<char>>,
    b: Option<Seq<char>>,
)
    requires
        magic_kind(magic) is Some,
    ensures
        detected(magic, a) == detected(magic, b),
        detected(magic, a) == magic_kind(magic)->0,
{
}

/// The case of an extension does not matter.
pub proof fn law_extension_case_does_not_matter(magic: Seq<u8>, a: Seq<char>, b: Seq<char>)
    requires
        lowered(a) == lowered(b),
    ensures
        detected(magic, Some(a)) == detected(magic, Some(b)),
{
}

/// Only the first bytes count: more bytes behind a recognized start change nothing.
pub proof fn law_twelve_bytes_decide(magic: Seq<u8>)
    requires
        magic.len() >= 12,
    ensures
        magic_kind(magic) == magic_kind(magic.take(12)),
{
    let head = magic.take(12);
    assert forall|sig: Seq<u8>| sig.len() <= 12 implies #[trigger] starts(
        magic,
        sig,
    ) == starts(head, sig) by {
        assert(magic.subrange(0, sig.len() as int) =~= head.subrange(0, sig.len() as int));
    }
    assert forall|at: int, sig: Seq<u8>| 0 <= at && at + sig.len() <= 12 implies #[trigger] starts(
        magic.skip(at),
        sig,
    ) == starts(head.skip(at), sig) by {
        assert(magic.skip(at).subrange(0, sig.len() as int) =~= head.skip(at).subrange(
            0,
            sig.len() as int,
        ));
    }
}

/// Files are told by their first bytes, whatever comes behind them: a GIF by its name and version, glTF
/// and Blender files by their names, PNG by its eight bytes, JPEG by its three, bitmaps by their two
/// letters, WebP and AVI by the name of the container's content, and the other videos by theirs.
pub proof fn law_signatures_tell_the_kind(bytes: Seq<u8>)
    requires
        bytes.len() >= 12,
    ensures
        bytes[0] == 0x47 && bytes[1] == 0x49 && bytes[2] == 0x46 && bytes[3] == 0x38 && (bytes[4]
            == 0x37 || bytes[4] == 0x39) && bytes[5] == 0x61 ==> magic_kind(bytes) == Some(
            MediaKind::Gif,
        ),
        bytes[0] == 0x67 && bytes[1] == 0x6c && bytes[2] == 0x54 && bytes[3] == 0x46 ==> magic_kind(
            bytes,
        ) == Some(MediaKind::Mesh(MeshFormat::Gltf)),
        bytes[0] == 0x42 && bytes[1] == 0x4c && bytes[2] == 0x45 && bytes[3] == 0x4e && bytes[4] == 0x44
            && bytes[5] == 0x45 && bytes[6] == 0x52 ==> magic_kind(bytes) == Some(
            MediaKind::Mesh(MeshFormat::Blend),
        ),
        bytes[0] == 0x89 && bytes[1] == 0x50 && bytes[2] == 0x4e && bytes[3] == 0x47 && bytes[4] == 0x0d
            && bytes[5] == 0x0a && bytes[6] == 0x1a && bytes[7] == 0x0a ==> magic_kind(bytes) == Some(
            MediaKind::Image,
        ),
        bytes[0] == 0xff && bytes[1] == 0xd8 && bytes[2] == 0xff ==> magic_kind(bytes) == Some(
            MediaKind::Image,
        ),
        bytes[0] == 0x42 && bytes[1] == 0x4d ==> magic_kind(bytes) == Some(MediaKind::Image),
        bytes[0] == 0x52 && bytes[1] == 0x49 && bytes[2] == 0x46 && bytes[3] == 0x46 && bytes[8] == 0x57
            && bytes[9] == 0x45 && bytes[10] == 0x42 && bytes[11] == 0x50 ==> magic_kind(bytes) == Some(
            MediaKind::Image,
        ),
        bytes[0] == 0x52 && bytes[1] == 0x49 && bytes[2] == 0x46 && bytes[3] == 0x46 && bytes[8] == 0x41
            && bytes[9] == 0x56 && bytes[10] == 0x49 && bytes[11] == 0x20 ==> magic_kind(bytes) == Some(
            MediaKind::Video,
        ),
        bytes[0] == 0x1a && bytes[1] == 0x45 && bytes[2] == 0xdf && bytes[3] == 0xa3 ==> magic_kind(
            bytes,
        ) == Some(MediaKind::Video),
        bytes[0] == 0 && bytes[4] == 0x66 && bytes[5] == 0x74 && bytes[6] == 0x79 && bytes[7] == 0x70
            ==> magic_kind(bytes) == Some(MediaKind::Video),
{
    lemma_starts(bytes, seq![0x89u8, 0x50, 0x4e, 0x47, 0x0d, 0x0a, 0x1a, 0x0a]);
    lemma_starts(bytes, seq![0xffu8, 0xd8, 0xff]);
    lemma_starts(bytes, seq![0x42u8, 0x4d]);
    lemma_starts(bytes, seq![0x47u8, 0x49, 0x46, 0x38, 0x37, 0x61]);
    lemma_starts(bytes, seq![0x47u8, 0x49, 0x46, 0x38, 0x39, 0x61]);
    lemma_starts(bytes, seq![0x67u8, 0x6c, 0x54, 0x46]);
    lemma_starts(bytes, seq![0x42u8, 0x4c, 0x45, 0x4e, 0x44, 0x45, 0x52]);
    lemma_starts(bytes, seq![0x52u8, 0x49, 0x46, 0x46]);
    lemma_starts(bytes.skip(8), seq![0x57u8, 0x45, 0x42, 0x50]);
    lemma_starts(bytes.skip(8), seq![0x41u8, 0x56, 0x49, 0x20]);
    lemma_starts(bytes.skip(4), seq![0x66u8, 0x74, 0x79, 0x70]);
    lemma_starts(bytes, seq![0x1au8, 0x45, 0xdf, 0xa3]);
}

proof fn lemma_starts(bytes: Seq<u8>, tag: Seq<u8>)
    requires
        tag.len() <= bytes.len(),
    ensures
        starts(bytes, tag) <==> forall|i: int| 0 <= i < tag.len() ==> bytes[i] == #[trigger] tag[i],
{
    let head = bytes.subrange(0, tag.len() as int);
    if forall|i: int| 0 <= i < tag.len() ==> bytes[i] == #[trigger] tag[i] {
        assert(head =~= tag);
    }
    if starts(bytes, tag) {
        assert forall|i: int| 0 <= i < tag.len() implies bytes[i] == #[trigger] tag[i] by {
            assert(head[i] == bytes[i]);
        }
    }
}

} // verus!
