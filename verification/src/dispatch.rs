//! Viewer dispatch: route a detected media kind to the right viewer.

use crate::error::Complaint;
use crate::media::{Input, MediaKind, MeshFormat};
use crate::text::joined;
use vstd::prelude::*;
use vstd::string::*;

verus! {

/// The still-image viewer.
#[derive(Debug, Clone, Copy, PartialEq, Eq, Structural)]
pub struct ImageViewer;

/// The animated-GIF viewer.
#[derive(Debug, Clone, Copy, PartialEq, Eq, Structural)]
pub struct GifViewer;

/// The video viewer.
#[derive(Debug, Clone, Copy, PartialEq, Eq, Structural)]
pub struct VideoViewer;

/// The interactive 3D-mesh viewer.
#[derive(Debug, Clone, Copy, PartialEq, Eq, Structural)]
pub struct MeshViewer {
    /// The concrete mesh format, so the viewer can pick the right loader.
    pub format: MeshFormat,
}

/// The viewer of one media family.
#[derive(Debug, Clone, Copy, PartialEq, Eq, Structural)]
pub enum Viewer {
    /// Still images.
    Image(ImageViewer),
    /// Animated GIFs.
    Gif(GifViewer),
    /// Videos.
    Video(VideoViewer),
    /// Meshes.
    Mesh(MeshViewer),
}

impl Viewer {
    /// The name of the viewer.
    pub open spec fn spec_name(self) -> Seq<char> {
        match self {
            Viewer::Image(_) => "image"@,
            Viewer::Gif(_) => "gif"@,
            Viewer::Video(_) => "video"@,
            Viewer::Mesh(_) => "mesh"@,
        }
    }

    /// A short human-readable name for diagnostics.
    pub fn name(&self) -> (s: &'static str)
        ensures
            s@ == self.spec_name(),
    {
        match self {
            Viewer::Image(_) => "image",
            Viewer::Gif(_) => "gif",
            Viewer::Video(_) => "video",
            Viewer::Mesh(_) => "mesh",
        }
    }
}

/// The viewer of that kind of media, if it has one.
pub open spec fn viewer_of(kind: MediaKind) -> Option<Viewer> {
    match kind {
        MediaKind::Image => Some(Viewer::Image(ImageViewer)),
        MediaKind::Gif => Some(Viewer::Gif(GifViewer)),
        MediaKind::Video => Some(Viewer::Video(VideoViewer)),
        MediaKind::Mesh(format) => Some(Viewer::Mesh(MeshViewer { format })),
        MediaKind::Unknown => None,
    }
}

/// Selects the viewer for a media kind.
///
/// Fails for [`MediaKind::Unknown`] so the caller can print a clean message instead of proceeding.
pub fn viewer_for(kind: MediaKind) -> (r: Result<Viewer, Complaint>)
    ensures
        match viewer_of(kind) {
            Some(v) => r == Ok::<Viewer, Complaint>(v),
            None => r is Err && r->Err_0.what@ == "unsupported or unrecognized media type"@
                && r->Err_0.cause is None,
        },
{
    match kind {
        MediaKind::Image => Ok(Viewer::Image(ImageViewer)),
        MediaKind::Gif => Ok(Viewer::Gif(GifViewer)),
        MediaKind::Video => Ok(Viewer::Video(VideoViewer)),
        MediaKind::Mesh(format) => Ok(Viewer::Mesh(MeshViewer { format })),
        MediaKind::Unknown => Err(Complaint::new("unsupported or unrecognized media type")),
    }
}

/// The description of that kind of media.
pub open spec fn kind_text(kind: MediaKind) -> Seq<char> {
    match kind {
        MediaKind::Image => "image"@,
        MediaKind::Gif => "animated gif"@,
        MediaKind::Video => "video"@,
        MediaKind::Mesh(MeshFormat::Obj) => "3D mesh (OBJ)"@,
        MediaKind::Mesh(MeshFormat::Stl) => "3D mesh (STL)"@,
        MediaKind::Mesh(MeshFormat::Gltf) => "3D mesh (glTF/GLB)"@,
        MediaKind::Mesh(MeshFormat::Blend) => "3D mesh (Blender)"@,
        MediaKind::Unknown => "unknown"@,
    }
}

/// A short description of a media kind.
pub fn describe_kind(kind: MediaKind) -> (s: &'static str)
    ensures
        s@ == kind_text(kind),
{
    match kind {
        MediaKind::Image => "image",
        MediaKind::Gif => "animated gif",
        MediaKind::Video => "video",
        MediaKind::Mesh(MeshFormat::Obj) => "3D mesh (OBJ)",
        MediaKind::Mesh(MeshFormat::Stl) => "3D mesh (STL)",
        MediaKind::Mesh(MeshFormat::Gltf) => "3D mesh (glTF/GLB)",
        MediaKind::Mesh(MeshFormat::Blend) => "3D mesh (Blender)",
        MediaKind::Unknown => "unknown",
    }
}

/// The viewer that would handle a kind.
pub fn viewer_label(kind: MediaKind) -> (s: &'static str)
    ensures
        s@ == match viewer_of(kind) {
            Some(v) => v.spec_name(),
            None => "none (unsupported)"@,
        },
{
    match viewer_for(kind) {
        Ok(v) => v.name(),
        Err(_) => "none (unsupported)",
    }
}

/// Every kind of media but the unknown has a viewer, and it is the supported kinds that have one.
pub proof fn law_supported_kinds_have_viewers(kind: MediaKind)
    ensures
        viewer_of(kind) is Some <==> !(kind is Unknown),
{
}

/// Checks that an input can be rendered before the terminal is touched.
pub fn check_renderable(input: &Input, kind: MediaKind) -> (r: Result<(), Complaint>)
    ensures
        r is Ok <==> !(kind is Unknown),
        r is Err ==> r->Err_0.what@ == "cannot render "@ + input.spec_label()
            + ": unsupported or unrecognized media type"@ && r->Err_0.cause is None,
{
    if kind.is_supported() {
        return Ok(());
    }
    let mut what = joined("cannot render ", input.label().as_str());
    what.append(": unsupported or unrecognized media type");
    Err(Complaint { what, cause: None })
}

/// The path of a still image, or a complaint where it would have to come from standard input.
pub fn image_path(input: &Input) -> (r: Result<String, Complaint>)
    ensures
        match input {
            Input::File(p) => r is Ok && r->Ok_0@ == p@,
            Input::Stdin => r is Err && r->Err_0.what@
                == "reading images from stdin goes through the pipe path (`rgfx -`)"@
                && r->Err_0.cause is None,
        },
{
    match input {
        Input::File(p) => Ok(p.clone()),
        Input::Stdin => Err(
            Complaint::new("reading images from stdin goes through the pipe path (`rgfx -`)"),
        ),
    }
}

/// The complaint of a build without video support.
pub fn video_unavailable() -> (c: Complaint)
    ensures
        c.what@
            == "video playback requires the `ffmpeg` feature: rebuild with `--features ffmpeg` (and install the `ffmpeg` executable on your PATH)"@,
        c.cause is None,
{
    Complaint::new(
        "video playback requires the `ffmpeg` feature: rebuild with `--features ffmpeg` (and install the `ffmpeg` executable on your PATH)",
    )
}

/// Checks what was read from standard input before it is looked at: something must have been piped,
/// and it must not be empty.
pub fn check_piped(is_terminal: bool, len: usize) -> (r: Result<(), Complaint>)
    ensures
        r is Ok <==> !is_terminal && len > 0,
        r is Err ==> r->Err_0.cause is None && r->Err_0.what@ == if is_terminal {
            "no input on stdin: pipe data in, e.g. `cat image.png | rgfx -`"@
        } else {
            "stdin was empty: nothing to render"@
        },
{
    if is_terminal {
        return Err(
            Complaint::new("no input on stdin: pipe data in, e.g. `cat image.png | rgfx -`"),
        );
    }
    if len == 0 {
        return Err(Complaint::new("stdin was empty: nothing to render"));
    }
    Ok(())
}

/// Checks that media of that kind can be read from standard input: only still images can.
pub fn check_stdin_kind(kind: MediaKind) -> (r: Result<(), Complaint>)
    ensures
        r is Ok <==> kind is Image,
        r is Err ==> r->Err_0.cause is None && r->Err_0.what@ == stdin_refusal(kind),
{
    match kind {
        MediaKind::Image => Ok(()),
        MediaKind::Gif => Err(
            Complaint::new(
                "animated GIF on stdin is not supported yet; pipe a still image or use --stream",
            ),
        ),
        MediaKind::Video => Err(
            Complaint::new(
                "video on stdin is not supported yet; pipe a still image or use --stream",
            ),
        ),
        MediaKind::Mesh(_) => Err(
            Complaint::new("3D meshes cannot be read from stdin; pass a file path instead"),
        ),
        MediaKind::Unknown => Err(
            Complaint::new(
                "could not detect a supported image format on stdin (use --stream for raw RGB frames)",
            ),
        ),
    }
}

/// What is said of media of that kind on standard input.
pub open spec fn stdin_refusal(kind: MediaKind) -> Seq<char> {
    match kind {
        MediaKind::Image => Seq::empty(),
        MediaKind::Gif => "animated GIF on stdin is not supported yet; pipe a still image or use --stream"@,
        MediaKind::Video => "video on stdin is not supported yet; pipe a still image or use --stream"@,
        MediaKind::Mesh(_) => "3D meshes cannot be read from stdin; pass a file path instead"@,
        MediaKind::Unknown => "could not detect a supported image format on stdin (use --stream for raw RGB frames)"@,
    }
}

/// Kinds that are not the same have viewers that are not: a mesh is handed on in its own format.
pub proof fn law_viewers_tell_kinds_apart(kind: MediaKind, other: MediaKind)
    ensures
        viewer_of(kind) == viewer_of(other) <==> kind == other,
        kind is Mesh <==> viewer_of(kind) is Some && viewer_of(kind)->0 is Mesh,
        kind is Mesh ==> viewer_of(kind)->0->Mesh_0.format == kind->Mesh_0,
        kind is Gif <==> viewer_of(kind) is Some && viewer_of(kind)->0 is Gif,
        kind is Video <==> viewer_of(kind) is Some && viewer_of(kind)->0 is Video,
        kind is Image <==> viewer_of(kind) is Some && viewer_of(kind)->0 is Image,
{
}

} // verus!
