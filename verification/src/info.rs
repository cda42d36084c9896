//! The metadata report on a file: what it says, and how it is laid out as text.
//!
//! Figures that are not whole numbers are kept by their bit patterns, and come with their text where
//! the report is laid out.

use crate::anim::AnimationInfo;
use crate::decode::{format_of, guessed, image_facts, inspect, Failure};
use crate::error::Complaint;
use crate::gif::{
    decode_all, decodes_to, decoding_fails, gif_failure, GifFrame, GifPicture, GifTrouble,
};
use crate::media::{Input, MediaKind, MeshFormat};
use crate::playback_viewer::Double;
use crate::single::Single;
use crate::text::{decimal, decimal_string, joined, lowered, push_decimal, to_lower};
use vstd::prelude::*;
use vstd::string::*;

verus! {

/// A metadata report for a single input.
///
/// Fields are populated per media kind; absent fields are left out of the text.
#[derive(Debug, Clone)]
pub struct Report {
    /// The input label (file path, or `<stdin>`).
    pub input: String,
    /// The detected media kind: `image`, `gif`, `video`, `mesh`, or `unknown`.
    pub kind: String,
    /// The concrete container/format (e.g. `PNG`, `glTF`, `mp4`), when known.
    pub format: Option<String>,
    /// Pixel width, for images/gif/video.
    pub width: Option<u32>,
    /// Pixel height, for images/gif/video.
    pub height: Option<u32>,
    /// Number of animation frames (still images report `1`).
    pub frames: Option<u64>,
    /// The pixel color type, for images/gif (e.g. `Rgba8`).
    pub color_type: Option<String>,
    /// Mesh count, for meshes.
    pub meshes: Option<usize>,
    /// Total vertex count, for meshes.
    pub vertices: Option<usize>,
    /// Total triangle count, for meshes.
    pub triangles: Option<usize>,
    /// Declared material count, for meshes that track materials.
    pub materials: Option<usize>,
    /// Declared animation count, for meshes that track animations.
    pub animations: Option<usize>,
    /// Per-animation summaries, for meshes that declare animations.
    pub animation_names: Vec<String>,
    /// Bounding-box size along each axis, for meshes.
    pub bounding_box: Option<[Single; 3]>,
    /// Video codec name (e.g. `h264`), when probed.
    pub codec: Option<String>,
    /// Frames per second, for video.
    pub fps: Option<Double>,
    /// Duration in seconds, for video.
    pub duration_secs: Option<Double>,
    /// Non-fatal notes (e.g. why a video could not be probed).
    pub notes: Vec<String>,
}

/// The texts of the figures of a report that are not whole numbers: the bounding box with three
/// decimals, the rate and the duration with two.
#[derive(Debug, Clone)]
pub struct FigureTexts {
    /// The size along the x axis.
    pub x: String,
    /// The size along the y axis.
    pub y: String,
    /// The size along the z axis.
    pub z: String,
    /// The frames per second.
    pub fps: String,
    /// The duration.
    pub duration: String,
}

/// One line of a report: what it is about, and what it says.
#[derive(Debug, Clone)]
pub struct Row {
    /// What the line is about.
    pub key: &'static str,
    /// What it says.
    pub value: String,
}

/// One line of a report: what it is about, and what it says.
pub type RowText = (Seq<char>, Seq<char>);

/// The texts of the lines.
pub open spec fn row_texts(rows: Seq<Row>) -> Seq<RowText> {
    rows.map_values(|r: Row| (r.key@, r.value@))
}

/// The lines, and one more where there is something to say.
pub open spec fn with_row(rows: Seq<RowText>, key: Seq<char>, value: Option<Seq<char>>) -> Seq<
    RowText,
> {
    match value {
        Some(v) => rows.push((key, v)),
        None => rows,
    }
}

/// The text, where there is one.
pub open spec fn opt_text(s: Option<String>) -> Option<Seq<char>> {
    match s {
        Some(s) => Some(s@),
        None => None,
    }
}

/// The number in decimal, where there is one.
pub open spec fn opt_number(n: Option<usize>) -> Option<Seq<char>> {
    match n {
        Some(n) => Some(decimal(n as nat)),
        None => None,
    }
}

/// The lines, and one for each of the first `n` animations.
pub open spec fn with_animations(rows: Seq<RowText>, names: Seq<String>, n: nat) -> Seq<RowText>
    decreases n,
{
    if n == 0 {
        rows
    } else {
        with_animations(rows, names, (n - 1) as nat).push(("animation"@, names[n - 1]@))
    }
}

/// The lines on what any file and any picture has.
pub open spec fn picture_rows(r: Report) -> Seq<RowText> {
    let rows = seq![("input"@, r.input@), ("kind"@, r.kind@)];
    let rows = with_row(rows, "format"@, opt_text(r.format));
    let rows = with_row(
        rows,
        "dimensions"@,
        if r.width is Some && r.height is Some {
            Some(decimal(r.width->0 as nat) + " x "@ + decimal(r.height->0 as nat))
        } else {
            None
        },
    );
    let rows = with_row(
        rows,
        "frames"@,
        match r.frames {
            Some(n) => Some(decimal(n as nat)),
            None => None,
        },
    );
    with_row(rows, "color type"@, opt_text(r.color_type))
}

/// The lines on what any file, any picture and any mesh has.
pub open spec fn mesh_rows(r: Report, shown: FigureTexts) -> Seq<RowText> {
    let rows = picture_rows(r);
    let rows = with_row(rows, "meshes"@, opt_number(r.meshes));
    let rows = with_row(rows, "vertices"@, opt_number(r.vertices));
    let rows = with_row(rows, "triangles"@, opt_number(r.triangles));
    let rows = with_row(rows, "materials"@, opt_number(r.materials));
    let rows = with_row(rows, "animations"@, opt_number(r.animations));
    let rows = with_animations(rows, r.animation_names@, r.animation_names@.len());
    with_row(
        rows,
        "bounding box"@,
        if r.bounding_box is Some {
            Some(shown.x@ + " x "@ + shown.y@ + " x "@ + shown.z@)
        } else {
            None
        },
    )
}

/// All lines of a report, in their order: only what there is to say.
pub open spec fn all_rows(r: Report, shown: FigureTexts) -> Seq<RowText> {
    let rows = mesh_rows(r, shown);
    let rows = with_row(rows, "codec"@, opt_text(r.codec));
    let rows = with_row(
        rows,
        "fps"@,
        if r.fps is Some {
            Some(shown.fps@)
        } else {
            None
        },
    );
    with_row(
        rows,
        "duration"@,
        if r.duration_secs is Some {
            Some(shown.duration@ + "s"@)
        } else {
            None
        },
    )
}

/// Adds a line.
fn push_row(rows: &mut Vec<Row>, key: &'static str, value: String)
    ensures
        row_texts(final(rows)@) == row_texts(old(rows)@).push((key@, value@)),
{
    let ghost before = row_texts(rows@);
    rows.push(Row { key, value });
    assert(row_texts(rows@) =~= before.push((key@, value@)));
}

/// Adds a line where there is a text.
fn push_text(rows: &mut Vec<Row>, key: &'static str, value: &Option<String>)
    ensures
        row_texts(final(rows)@) == with_row(row_texts(old(rows)@), key@, opt_text(*value)),
{
    if let Some(v) = value {
        push_row(rows, key, v.clone());
    }
}

/// Adds a line where there is a number.
fn push_number(rows: &mut Vec<Row>, key: &'static str, value: Option<usize>)
    ensures
        row_texts(final(rows)@) == with_row(row_texts(old(rows)@), key@, opt_number(value)),
{
    if let Some(v) = value {
        push_row(rows, key, decimal_string(v as u64));
    }
}

/// The length of the longest key among the first `n` lines.
pub open spec fn key_width(rows: Seq<RowText>, n: nat) -> nat
    decreases n,
{
    if n == 0 {
        0
    } else {
        let before = key_width(rows, (n - 1) as nat);
        if rows[n - 1].0.len() > before {
            rows[n - 1].0.len()
        } else {
            before
        }
    }
}

/// So many blanks.
pub open spec fn blanks(n: nat) -> Seq<char> {
    Seq::new(n, |i: int| ' ')
}

/// The first `n` lines as text: each key blanked to `width`, two blanks, the value, a newline.
pub open spec fn laid_out(rows: Seq<RowText>, width: nat, n: nat) -> Seq<char>
    decreases n,
{
    if n == 0 {
        Seq::empty()
    } else {
        let (key, value) = rows[n - 1];
        laid_out(rows, width, (n - 1) as nat) + key + blanks(
            if key.len() < width {
                (width - key.len()) as nat
            } else {
                0
            },
        ) + "  "@ + value + "\n"@
    }
}

/// The text, and a line for each of the first `n` notes.
pub open spec fn with_notes(text: Seq<char>, notes: Seq<String>, n: nat) -> Seq<char>
    decreases n,
{
    if n == 0 {
        text
    } else {
        with_notes(text, notes, (n - 1) as nat) + "note: "@ + notes[n - 1]@ + "\n"@
    }
}

impl Report {
    /// Whether nothing is said but the input and the kind.
    pub open spec fn is_bare(&self, input: &Input, kind: Seq<char>) -> bool {
        &&& self.input@ == input.spec_label()
        &&& self.kind@ == kind
        &&& self.format is None
        &&& self.width is None
        &&& self.height is None
        &&& self.frames is None
        &&& self.color_type is None
        &&& self.meshes is None
        &&& self.vertices is None
        &&& self.triangles is None
        &&& self.materials is None
        &&& self.animations is None
        &&& self.animation_names@.len() == 0
        &&& self.bounding_box is None
        &&& self.codec is None
        &&& self.fps is None
        &&& self.duration_secs is None
        &&& self.notes@.len() == 0
    }

    /// A bare report carrying just the input label and kind.
    pub fn new(input: &Input, kind: &str) -> (r: Report)
        ensures
            r.is_bare(input, kind@),
    {
        Report {
            input: input.label(),
            kind: kind.to_owned(),
            format: None,
            width: None,
            height: None,
            frames: None,
            color_type: None,
            meshes: None,
            vertices: None,
            triangles: None,
            materials: None,
            animations: None,
            animation_names: Vec::new(),
            bounding_box: None,
            codec: None,
            fps: None,
            duration_secs: None,
            notes: Vec::new(),
        }
    }

    /// The ordered key/value rows for the human-readable rendering. Only present fields are included,
    /// in a stable, kind-agnostic order.
    pub fn rows(&self, shown: &FigureTexts) -> (rows: Vec<Row>)
        ensures
            row_texts(rows@) == all_rows(*self, *shown),
    {
        let mut rows: Vec<Row> = Vec::new();
        push_row(&mut rows, "input", self.input.clone());
        push_row(&mut rows, "kind", self.kind.clone());
        assert(row_texts(rows@) =~= seq![("input"@, self.input@), ("kind"@, self.kind@)]);
        push_text(&mut rows, "format", &self.format);
        if let Some(w) = self.width {
            if let Some(h) = self.height {
                let mut size = decimal_string(w as u64);
                size.append(" x ");
                push_decimal(&mut size, h as u64);
                push_row(&mut rows, "dimensions", size);
            }
        }
        if let Some(n) = self.frames {
            push_row(&mut rows, "frames", decimal_string(n));
        }
        push_text(&mut rows, "color type", &self.color_type);
        assert(row_texts(rows@) == picture_rows(*self));
        push_number(&mut rows, "meshes", self.meshes);
        push_number(&mut rows, "vertices", self.vertices);
        push_number(&mut rows, "triangles", self.triangles);
        push_number(&mut rows, "materials", self.materials);
        push_number(&mut rows, "animations", self.animations);
        let ghost before = row_texts(rows@);
        let mut i: usize = 0;
        while i < self.animation_names.len()
            invariant
                i <= self.animation_names@.len(),
                row_texts(rows@) == with_animations(before, self.animation_names@, i as nat),
            decreases self.animation_names@.len() - i,
        {
            push_row(&mut rows, "animation", self.animation_names[i].clone());
            i = i + 1;
        }
        if self.bounding_box.is_some() {
            let mut size = shown.x.clone();
            size.append(" x ");
            size.append(shown.y.as_str());
            size.append(" x ");
            size.append(shown.z.as_str());
            push_row(&mut rows, "bounding box", size);
        }
        assert(row_texts(rows@) == mesh_rows(*self, *shown));
        push_text(&mut rows, "codec", &self.codec);
        if self.fps.is_some() {
            push_row(&mut rows, "fps", shown.fps.clone());
        }
        if self.duration_secs.is_some() {
            push_row(&mut rows, "duration", joined(shown.duration.as_str(), "s"));
        }
        rows
    }

    /// Renders the report as aligned lines of key and value (trailing newline included).
    pub fn to_human(&self, shown: &FigureTexts) -> (out: String)
        ensures
            ({
                let rows = all_rows(*self, *shown);
                out@ == with_notes(
                    laid_out(rows, key_width(rows, rows.len()), rows.len()),
                    self.notes@,
                    self.notes@.len(),
                )
            }),
    {
        let rows = self.rows(shown);
        let ghost texts = row_texts(rows@);
        let mut width: usize = 0;
        let mut i: usize = 0;
        while i < rows.len()
            invariant
                texts == row_texts(rows@),
                i <= rows@.len(),
                width == key_width(texts, i as nat),
            decreases rows@.len() - i,
        {
            let len: usize = rows[i].key.unicode_len();
            assert(texts[i as int].0 == rows@[i as int].key@);
            if len > width {
                width = len;
            }
            i = i + 1;
        }
        let mut out = String::new();
        let mut i: usize = 0;
        while i < rows.len()
            invariant
                texts == row_texts(rows@),
                i <= rows@.len(),
                out@ == laid_out(texts, width as nat, i as nat),
            decreases rows@.len() - i,
        {
            let key: &'static str = rows[i].key;
            assert(texts[i as int] == (rows@[i as int].key@, rows@[i as int].value@));
            out.append(key);
            let ghost before = out@;
            let mut c: usize = key.unicode_len();
            let ghost start = c;
            assert(before + blanks(0) =~= before);
            while c < width
                invariant
                    start <= c,
                    start <= width ==> c <= width,
                    width < start ==> c == start,
                    out@ == before + blanks((c - start) as nat),
                decreases width - c,
            {
                out.push(' ');
                assert(out@ =~= before + blanks((c + 1 - start) as nat));
                c = c + 1;
            }
            out.append("  ");
            out.append(rows[i].value.as_str());
            out.append("\n");
            i = i + 1;
        }
        let ghost text = out@;
        let mut i: usize = 0;
        while i < self.notes.len()
            invariant
                i <= self.notes@.len(),
                out@ == with_notes(text, self.notes@, i as nat),
            decreases self.notes@.len() - i,
        {
            out.append("note: ");
            out.append(self.notes[i].as_str());
            out.append("\n");
            i = i + 1;
        }
        out
    }
}

/// A clean complaint for unrecognized input.
pub fn unknown_error(input: &Input) -> (c: Complaint)
    ensures
        c.what@ == input.spec_label() + ": unsupported or unrecognized media type"@,
        c.cause is None,
{
    Complaint {
        what: joined(input.label().as_str(), ": unsupported or unrecognized media type"),
        cause: None,
    }
}

/// Whether the report is bare but for the fields on a picture: a format, a size, a number of frames
/// and a color type.
pub open spec fn is_picture_report(
    r: Report,
    input: Input,
    kind: Seq<char>,
    format: Option<Seq<char>>,
    width: nat,
    height: nat,
    frames: nat,
    color_type: Seq<char>,
) -> bool {
    &&& r.input@ == input.spec_label()
    &&& r.kind@ == kind
    &&& opt_text(r.format) == format
    &&& r.width is Some && r.width->0 == width
    &&& r.height is Some && r.height->0 == height
    &&& r.frames is Some && r.frames->0 == frames
    &&& opt_text(r.color_type) == Some(color_type)
    &&& r.meshes is None
    &&& r.vertices is None
    &&& r.triangles is None
    &&& r.materials is None
    &&& r.animations is None
    &&& r.animation_names@.len() == 0
    &&& r.bounding_box is None
    &&& r.codec is None
    &&& r.fps is None
    &&& r.duration_secs is None
    &&& r.notes@.len() == 0
}

/// The label of the format of the bytes, where it can be told.
pub open spec fn format_label(bytes: Seq<u8>) -> Option<Seq<char>> {
    match guessed(bytes) {
        Some(f) => Some(f.spec_label()),
        None => None,
    }
}

/// Whether `r` is the report on the image of these bytes, or the complaint where they cannot be decoded.
pub open spec fn reports_image(r: Result<Report, Complaint>, input: Input, bytes: Seq<u8>) -> bool {
    match image_facts(bytes) {
        Ok(f) => r is Ok && is_picture_report(
            r->Ok_0,
            input,
            "image"@,
            format_label(bytes),
            f.width,
            f.height,
            1,
            f.color_type,
        ),
        Err(f) => r is Err && r->Err_0.what@ == "decoding image (unsupported or corrupt)"@
            && opt_text(r->Err_0.cause) == Some(f.message),
    }
}

/// Builds a still-image report (format, dimensions, color type) from bytes.
pub fn image_report(input: &Input, bytes: &[u8]) -> (r: Result<Report, Complaint>)
    ensures
        reports_image(r, *input, bytes@),
{
    let format: Option<String> = match format_of(bytes) {
        Some(f) => Some(f.label().to_owned()),
        None => None,
    };
    match inspect(bytes) {
        Ok(facts) => {
            let mut report = Report::new(input, "image");
            report.format = format;
            report.width = Some(facts.width);
            report.height = Some(facts.height);
            report.frames = Some(1);
            report.color_type = Some(facts.color_type);
            Ok(report)
        },
        Err(f) => Err(
            Complaint {
                what: "decoding image (unsupported or corrupt)".to_owned(),
                cause: Some(f.message),
            },
        ),
    }
}

/// Whether the report is that on a GIF with these frames: the size is that of the first, or nothing.
pub open spec fn is_gif_report(r: Report, input: Input, frames: Seq<GifPicture>) -> bool {
    is_picture_report(
        r,
        input,
        "gif"@,
        Some("GIF"@),
        if frames.len() > 0 {
            frames[0].image.width
        } else {
            0
        },
        if frames.len() > 0 {
            frames[0].image.height
        } else {
            0
        },
        frames.len(),
        "Rgba8"@,
    )
}

/// Builds an animated-GIF report (dimensions, frame count, color type) from its decoded frames.
pub fn frames_report(input: &Input, frames: &[GifFrame]) -> (r: Report)
    ensures
        is_gif_report(r, *input, frames@.map_values(|f: GifFrame| f@)),
{
    let (width, height): (u32, u32) = if frames.len() > 0 {
        (frames[0].image.width(), frames[0].image.height())
    } else {
        (0, 0)
    };
    let mut report = Report::new(input, "gif");
    report.format = Some("GIF".to_owned());
    report.width = Some(width);
    report.height = Some(height);
    report.frames = Some(frames.len() as u64);
    report.color_type = Some("Rgba8".to_owned());
    report
}

/// Builds an animated-GIF report from bytes.
pub fn gif_report(input: &Input, bytes: &[u8]) -> (r: Result<Report, Complaint>)
    ensures
        match gif_failure(bytes@) {
            Some(f) => r is Err && r->Err_0.what@ == "opening GIF (unsupported or corrupt)"@
                && opt_text(r->Err_0.cause) == Some(f.message),
            None => match r {
                Ok(report) => exists|frames: Seq<GifPicture>| #[trigger]
                    decodes_to(bytes@, frames) && is_gif_report(report, *input, frames),
                Err(c) => c.what@ == "decoding GIF frames"@ && exists|f: Failure| #[trigger]
                    decoding_fails(bytes@, f) && opt_text(c.cause) == Some(f.message),
            },
        },
{
    match decode_all(bytes) {
        Ok(frames) => {
            assert(decodes_to(bytes@, frames@.map_values(|f: GifFrame| f@)));
            Ok(frames_report(input, frames.as_slice()))
        },
        Err(GifTrouble::Opening(f)) => Err(
            Complaint {
                what: "opening GIF (unsupported or corrupt)".to_owned(),
                cause: Some(f.message),
            },
        ),
        Err(GifTrouble::Frames(f)) => {
            assert(decoding_fails(bytes@, f@));
            Err(Complaint { what: "decoding GIF frames".to_owned(), cause: Some(f.message) })
        },
    }
}

/// What a report on standard input can be about.
#[derive(Clone, Copy, Debug, PartialEq, Eq, Structural)]
pub enum StdinReport {
    /// A still image.
    Image,
    /// An animated GIF.
    Gif,
}

/// Decides what a report on bytes from standard input is about: images and GIFs only.
pub fn stdin_report(input: &Input, kind: MediaKind) -> (r: Result<StdinReport, Complaint>)
    ensures
        match kind {
            MediaKind::Image => r == Ok::<StdinReport, Complaint>(StdinReport::Image),
            MediaKind::Gif => r == Ok::<StdinReport, Complaint>(StdinReport::Gif),
            MediaKind::Mesh(_) | MediaKind::Video => r is Err && r->Err_0.cause is None
                && r->Err_0.what@
                == "reading this media kind from standard input is not supported; pass a file path"@,
            MediaKind::Unknown => r is Err && r->Err_0.cause is None && r->Err_0.what@
                == input.spec_label() + ": unsupported or unrecognized media type"@,
        },
{
    match kind {
        MediaKind::Image => Ok(StdinReport::Image),
        MediaKind::Gif => Ok(StdinReport::Gif),
        MediaKind::Mesh(_) | MediaKind::Video => Err(
            Complaint::new(
                "reading this media kind from standard input is not supported; pass a file path",
            ),
        ),
        MediaKind::Unknown => Err(unknown_error(input)),
    }
}

/// What is known of a loaded mesh.
#[derive(Debug)]
pub struct MeshFacts {
    /// The number of meshes.
    pub meshes: usize,
    /// The number of vertices.
    pub vertices: usize,
    /// The number of triangles.
    pub triangles: usize,
    /// The number of materials that the file declares.
    pub materials: usize,
    /// The number of animations that the file declares.
    pub animations: usize,
    /// The summaries of the animations.
    pub animation_names: Vec<String>,
    /// The size of the bounding box, where there is one.
    pub size: Option<[Single; 3]>,
}

/// The label of a mesh format.
pub open spec fn mesh_label(format: MeshFormat) -> Seq<char> {
    match format {
        MeshFormat::Obj => "OBJ"@,
        MeshFormat::Stl => "STL"@,
        MeshFormat::Gltf => "glTF"@,
        MeshFormat::Blend => "Blender (via glTF export)"@,
    }
}

/// Whether files of that format declare materials and animations.
pub open spec fn declares(format: MeshFormat) -> bool {
    format == MeshFormat::Gltf || format == MeshFormat::Blend
}

/// Whether `r` is the report on a mesh of that format of which these facts are known.
pub open spec fn is_mesh_report(r: Report, input: Input, format: MeshFormat, facts: MeshFacts) -> bool {
    &&& r.input@ == input.spec_label()
    &&& r.kind@ == "mesh"@
    &&& opt_text(r.format) == Some(mesh_label(format))
    &&& r.width is None
    &&& r.height is None
    &&& r.frames is None
    &&& r.color_type is None
    &&& r.meshes == Some(facts.meshes)
    &&& r.vertices == Some(facts.vertices)
    &&& r.triangles == Some(facts.triangles)
    &&& r.bounding_box == facts.size
    &&& r.materials == (if declares(format) {
        Some(facts.materials)
    } else {
        None
    })
    &&& r.animations == (if declares(format) {
        Some(facts.animations)
    } else {
        None
    })
    &&& r.animation_names@ == (if declares(format) {
        facts.animation_names@
    } else {
        Seq::empty()
    })
    &&& r.codec is None
    &&& r.fps is None
    &&& r.duration_secs is None
    &&& r.notes@.len() == 0
}

/// Builds a mesh report from what is known of it. Only formats that declare materials and animations
/// report them.
pub fn mesh_report(input: &Input, format: MeshFormat, facts: MeshFacts) -> (r: Report)
    ensures
        is_mesh_report(r, *input, format, facts),
{
    let mut report = Report::new(input, "mesh");
    report.meshes = Some(facts.meshes);
    report.vertices = Some(facts.vertices);
    report.triangles = Some(facts.triangles);
    report.bounding_box = facts.size;
    match format {
        MeshFormat::Obj => {
            report.format = Some("OBJ".to_owned());
        },
        MeshFormat::Stl => {
            report.format = Some("STL".to_owned());
        },
        MeshFormat::Gltf => {
            report.format = Some("glTF".to_owned());
            report.materials = Some(facts.materials);
            report.animations = Some(facts.animations);
            report.animation_names = facts.animation_names;
        },
        MeshFormat::Blend => {
            report.format = Some("Blender (via glTF export)".to_owned());
            report.materials = Some(facts.materials);
            report.animations = Some(facts.animations);
            report.animation_names = facts.animation_names;
        },
    }
    assert(report.animation_names@ =~= if declares(format) {
        facts.animation_names@
    } else {
        Seq::empty()
    });
    report
}

/// The summary of an animation whose duration reads `duration`.
pub open spec fn summary_text(a: AnimationInfo, duration: Seq<char>) -> Seq<char> {
    a.name@ + " ("@ + duration + "s)"@ + (if a.skinned {
        " [skinned]"@
    } else {
        ""@
    })
}

/// Formats each animation as `name (1.50s)`, tagging skinned animations; `durations` has the text of
/// each duration.
pub fn animation_summaries(animations: &[AnimationInfo], durations: &[String]) -> (list: Vec<String>)
    requires
        durations@.len() == animations@.len(),
    ensures
        list@.len() == animations@.len(),
        forall|i: int|
            #![trigger list@[i]]
            0 <= i < list@.len() ==> list@[i]@ == summary_text(animations@[i], durations@[i]@),
{
    let mut list: Vec<String> = Vec::new();
    let mut i: usize = 0;
    while i < animations.len()
        invariant
            durations@.len() == animations@.len(),
            i <= animations@.len(),
            list@.len() == i,
            forall|k: int|
                #![trigger list@[k]]
                0 <= k < i ==> list@[k]@ == summary_text(animations@[k], durations@[k]@),
        decreases animations@.len() - i,
    {
        let mut s = animations[i].name.clone();
        s.append(" (");
        s.append(durations[i].as_str());
        s.append("s)");
        s.append(
            if animations[i].skinned {
                " [skinned]"
            } else {
                ""
            },
        );
        list.push(s);
        i = i + 1;
    }
    list
}

/// What probing a video gave.
#[derive(Debug)]
pub enum Probe {
    /// Videos cannot be probed here.
    Unavailable,
    /// Probing failed, for that reason.
    Failed(String),
    /// The size, the rate, and the duration and codec where they are known.
    Found {
        /// The width in pixels.
        width: u32,
        /// The height in pixels.
        height: u32,
        /// The frames per second.
        fps: Double,
        /// The duration in seconds.
        duration_secs: Option<Double>,
        /// The codec.
        codec: Option<String>,
    },
}

/// Builds a video report. The container comes from the file extension, the rest from a probe; without
/// one, a clear note is attached.
pub fn video_report(input: &Input, extension: Option<&str>, probe: Probe) -> (r: Report)
    ensures
        r.input@ == input.spec_label(),
        r.kind@ == "video"@,
        opt_text(r.format) == (match extension {
            Some(e) => Some(lowered(e@)),
            None => None,
        }),
        r.frames is None,
        r.color_type is None,
        r.meshes is None,
        r.vertices is None,
        r.triangles is None,
        r.materials is None,
        r.animations is None,
        r.animation_names@.len() == 0,
        r.bounding_box is None,
        match probe {
            Probe::Found { width, height, fps, duration_secs, codec } => {
                &&& r.width == Some(width)
                &&& r.height == Some(height)
                &&& r.fps == Some(fps)
                &&& r.duration_secs == duration_secs
                &&& r.codec == codec
                &&& r.notes@.len() == 0
            },
            Probe::Failed(e) => {
                &&& r.width is None && r.height is None && r.fps is None && r.duration_secs is None
                    && r.codec is None
                &&& r.notes@.len() == 1
                &&& r.notes@[0]@ == "could not probe video with ffprobe: "@ + e@
            },
            Probe::Unavailable => {
                &&& r.width is None && r.height is None && r.fps is None && r.duration_secs is None
                    && r.codec is None
                &&& r.notes@.len() == 1
                &&& r.notes@[0]@ == unavailable_text()
            },
        },
{
    let mut report = Report::new(input, "video");
    report.format = match extension {
        Some(e) => Some(to_lower(e)),
        None => None,
    };
    match probe {
        Probe::Found { width, height, fps, duration_secs, codec } => {
            report.width = Some(width);
            report.height = Some(height);
            report.fps = Some(fps);
            report.duration_secs = duration_secs;
            report.codec = codec;
        },
        Probe::Failed(e) => {
            report.notes.push(joined("could not probe video with ffprobe: ", e.as_str()));
        },
        Probe::Unavailable => {
            report.notes.push(
                "video probing needs the `ffmpeg` feature (rebuild with `--features ffmpeg`) and an installed ffprobe; showing container only".to_owned(),
            );
        },
    }
    report
}

/// The note on a video that cannot be probed.
pub open spec fn unavailable_text() -> Seq<char> {
    "video probing needs the `ffmpeg` feature (rebuild with `--features ffmpeg`) and an installed ffprobe; showing container only"@
}

proof fn lemma_row_stays(rows: Seq<RowText>, key: Seq<char>, value: Option<Seq<char>>, row: RowText)
    ensures
        rows.contains(row) ==> with_row(rows, key, value).contains(row),
        value is Some ==> with_row(rows, key, value).contains((key, value->0)),
{
    if value is Some {
        let all = with_row(rows, key, value);
        assert(all[rows.len() as int] == (key, value->0));
        if rows.contains(row) {
            let i = choose|i: int| 0 <= i < rows.len() && rows[i] == row;
            assert(all[i] == row);
        }
    }
}

proof fn lemma_animation_rows(rows: Seq<RowText>, names: Seq<String>, n: nat, row: RowText)
    requires
        n <= names.len(),
    ensures
        rows.contains(row) ==> with_animations(rows, names, n).contains(row),
        forall|k: int|
            0 <= k < n ==> with_animations(rows, names, n).contains(
                ("animation"@, (#[trigger] names[k])@),
            ),
    decreases n,
{
    if n > 0 {
        let before = with_animations(rows, names, (n - 1) as nat);
        lemma_animation_rows(rows, names, (n - 1) as nat, row);
        lemma_row_stays(before, "animation"@, Some(names[n - 1]@), row);
        assert forall|k: int| 0 <= k < n implies with_animations(rows, names, n).contains(
            ("animation"@, (#[trigger] names[k])@),
        ) by {
            lemma_row_stays(before, "animation"@, Some(names[n - 1]@), ("animation"@, names[k]@));
        }
    }
}

proof fn lemma_picture_row_is_shown(r: Report, shown: FigureTexts, row: RowText)
    ensures
        picture_rows(r).contains(row) ==> all_rows(r, shown).contains(row),
{
    let a = picture_rows(r);
    lemma_row_stays(a, "meshes"@, opt_number(r.meshes), row);
    let a = with_row(a, "meshes"@, opt_number(r.meshes));
    lemma_mesh_row_is_shown(r, shown, a, row);
}

proof fn lemma_mesh_row_is_shown(r: Report, shown: FigureTexts, rows: Seq<RowText>, row: RowText)
    requires
        rows == with_row(picture_rows(r), "meshes"@, opt_number(r.meshes)),
    ensures
        rows.contains(row) ==> all_rows(r, shown).contains(row),
        r.vertices is Some ==> all_rows(r, shown).contains(
            ("vertices"@, decimal(r.vertices->0 as nat)),
        ),
        r.triangles is Some ==> all_rows(r, shown).contains(
            ("triangles"@, decimal(r.triangles->0 as nat)),
        ),
        r.materials is Some ==> all_rows(r, shown).contains(
            ("materials"@, decimal(r.materials->0 as nat)),
        ),
        r.animations is Some ==> all_rows(r, shown).contains(
            ("animations"@, decimal(r.animations->0 as nat)),
        ),
        forall|k: int|
            0 <= k < r.animation_names@.len() ==> all_rows(r, shown).contains(
                ("animation"@, (#[trigger] r.animation_names@[k])@),
            ),
        r.bounding_box is Some ==> all_rows(r, shown).contains(
            ("bounding box"@, shown.x@ + " x "@ + shown.y@ + " x "@ + shown.z@),
        ),
        r.codec is Some ==> all_rows(r, shown).contains(("codec"@, r.codec->0@)),
        r.fps is Some ==> all_rows(r, shown).contains(("fps"@, shown.fps@)),
        r.duration_secs is Some ==> all_rows(r, shown).contains(
            ("duration"@, shown.duration@ + "s"@),
        ),
{
    let vertices = ("vertices"@, decimal(r.vertices->0 as nat));
    let triangles = ("triangles"@, decimal(r.triangles->0 as nat));
    let materials = ("materials"@, decimal(r.materials->0 as nat));
    let animations = ("animations"@, decimal(r.animations->0 as nat));
    let b = with_row(rows, "vertices"@, opt_number(r.vertices));
    let c = with_row(b, "triangles"@, opt_number(r.triangles));
    let d = with_row(c, "materials"@, opt_number(r.materials));
    let e = with_row(d, "animations"@, opt_number(r.animations));
    lemma_row_stays(rows, "vertices"@, opt_number(r.vertices), row);
    lemma_row_stays(b, "triangles"@, opt_number(r.triangles), row);
    lemma_row_stays(b, "triangles"@, opt_number(r.triangles), vertices);
    lemma_row_stays(c, "materials"@, opt_number(r.materials), row);
    lemma_row_stays(c, "materials"@, opt_number(r.materials), vertices);
    lemma_row_stays(c, "materials"@, opt_number(r.materials), triangles);
    lemma_row_stays(d, "animations"@, opt_number(r.animations), row);
    lemma_row_stays(d, "animations"@, opt_number(r.animations), vertices);
    lemma_row_stays(d, "animations"@, opt_number(r.animations), triangles);
    lemma_row_stays(d, "animations"@, opt_number(r.animations), materials);
    lemma_later_rows(r, shown, e, row);
    lemma_later_rows(r, shown, e, vertices);
    lemma_later_rows(r, shown, e, triangles);
    lemma_later_rows(r, shown, e, materials);
    lemma_later_rows(r, shown, e, animations);
}

/// The rows behind the counts of a mesh keep the others.
proof fn lemma_later_rows(r: Report, shown: FigureTexts, rows: Seq<RowText>, row: RowText)
    requires
        rows == with_row(
            with_row(
                with_row(
                    with_row(
                        with_row(picture_rows(r), "meshes"@, opt_number(r.meshes)),
                        "vertices"@,
                        opt_number(r.vertices),
                    ),
                    "triangles"@,
                    opt_number(r.triangles),
                ),
                "materials"@,
                opt_number(r.materials),
            ),
            "animations"@,
            opt_number(r.animations),
        ),
    ensures
        rows.contains(row) ==> all_rows(r, shown).contains(row),
        forall|k: int|
            0 <= k < r.animation_names@.len() ==> all_rows(r, shown).contains(
                ("animation"@, (#[trigger] r.animation_names@[k])@),
            ),
        r.bounding_box is Some ==> all_rows(r, shown).contains(
            ("bounding box"@, shown.x@ + " x "@ + shown.y@ + " x "@ + shown.z@),
        ),
        r.codec is Some ==> all_rows(r, shown).contains(("codec"@, r.codec->0@)),
        r.fps is Some ==> all_rows(r, shown).contains(("fps"@, shown.fps@)),
        r.duration_secs is Some ==> all_rows(r, shown).contains(
            ("duration"@, shown.duration@ + "s"@),
        ),
{
    let names = r.animation_names@;
    let f = with_animations(rows, names, names.len());
    lemma_animation_rows(rows, names, names.len(), row);
    lemma_last_rows(r, shown, f, row);
    assert forall|k: int| 0 <= k < names.len() implies all_rows(r, shown).contains(
        ("animation"@, (#[trigger] names[k])@),
    ) by {
        lemma_last_rows(r, shown, f, ("animation"@, names[k]@));
    }
}

/// The last rows keep the others.
proof fn lemma_last_rows(r: Report, shown: FigureTexts, rows: Seq<RowText>, row: RowText)
    requires
        mesh_rows(r, shown) == with_row(
            rows,
            "bounding box"@,
            if r.bounding_box is Some {
                Some(shown.x@ + " x "@ + shown.y@ + " x "@ + shown.z@)
            } else {
                None
            },
        ),
    ensures
        rows.contains(row) ==> all_rows(r, shown).contains(row),
        r.bounding_box is Some ==> all_rows(r, shown).contains(
            ("bounding box"@, shown.x@ + " x "@ + shown.y@ + " x "@ + shown.z@),
        ),
        r.codec is Some ==> all_rows(r, shown).contains(("codec"@, r.codec->0@)),
        r.fps is Some ==> all_rows(r, shown).contains(("fps"@, shown.fps@)),
        r.duration_secs is Some ==> all_rows(r, shown).contains(
            ("duration"@, shown.duration@ + "s"@),
        ),
{
    let boxed = if r.bounding_box is Some {
        Some(shown.x@ + " x "@ + shown.y@ + " x "@ + shown.z@)
    } else {
        None
    };
    let rate = if r.fps is Some {
        Some(shown.fps@)
    } else {
        None
    };
    let time = if r.duration_secs is Some {
        Some(shown.duration@ + "s"@)
    } else {
        None
    };
    let sides = ("bounding box"@, shown.x@ + " x "@ + shown.y@ + " x "@ + shown.z@);
    let codec = ("codec"@, r.codec->0@);
    let fps = ("fps"@, shown.fps@);
    let g = mesh_rows(r, shown);
    let h = with_row(g, "codec"@, opt_text(r.codec));
    let i = with_row(h, "fps"@, rate);
    lemma_row_stays(rows, "bounding box"@, boxed, row);
    lemma_row_stays(g, "codec"@, opt_text(r.codec), row);
    lemma_row_stays(g, "codec"@, opt_text(r.codec), sides);
    lemma_row_stays(h, "fps"@, rate, row);
    lemma_row_stays(h, "fps"@, rate, sides);
    lemma_row_stays(h, "fps"@, rate, codec);
    lemma_row_stays(i, "duration"@, time, row);
    lemma_row_stays(i, "duration"@, time, sides);
    lemma_row_stays(i, "duration"@, time, codec);
    lemma_row_stays(i, "duration"@, time, fps);
}

/// Whatever a report knows is said, under its own name: sizes with the width first, figures along x, y
/// and z in that order, and each animation on a line of its own.
pub proof fn law_report_says_what_it_knows(r: Report, shown: FigureTexts)
    ensures
        ({
            let rows = all_rows(r, shown);
            &&& rows.contains(("input"@, r.input@))
            &&& rows.contains(("kind"@, r.kind@))
            &&& r.format is Some ==> rows.contains(("format"@, r.format->0@))
            &&& r.width is Some && r.height is Some ==> rows.contains(
                (
                    "dimensions"@,
                    decimal(r.width->0 as nat) + " x "@ + decimal(r.height->0 as nat),
                ),
            )
            &&& r.frames is Some ==> rows.contains(("frames"@, decimal(r.frames->0 as nat)))
            &&& r.color_type is Some ==> rows.contains(("color type"@, r.color_type->0@))
            &&& r.meshes is Some ==> rows.contains(("meshes"@, decimal(r.meshes->0 as nat)))
            &&& r.vertices is Some ==> rows.contains(("vertices"@, decimal(r.vertices->0 as nat)))
            &&& r.triangles is Some ==> rows.contains(("triangles"@, decimal(r.triangles->0 as nat)))
            &&& r.materials is Some ==> rows.contains(("materials"@, decimal(r.materials->0 as nat)))
            &&& r.animations is Some ==> rows.contains(
                ("animations"@, decimal(r.animations->0 as nat)),
            )
            &&& forall|k: int|
                0 <= k < r.animation_names@.len() ==> rows.contains(
                    ("animation"@, (#[trigger] r.animation_names@[k])@),
                )
            &&& r.bounding_box is Some ==> rows.contains(
                ("bounding box"@, shown.x@ + " x "@ + shown.y@ + " x "@ + shown.z@),
            )
            &&& r.codec is Some ==> rows.contains(("codec"@, r.codec->0@))
            &&& r.fps is Some ==> rows.contains(("fps"@, shown.fps@))
            &&& r.duration_secs is Some ==> rows.contains(("duration"@, shown.duration@ + "s"@))
        }),
{
    let input = ("input"@, r.input@);
    let kind = ("kind"@, r.kind@);
    let format = ("format"@, r.format->0@);
    let size = decimal(r.width->0 as nat) + " x "@ + decimal(r.height->0 as nat);
    let both = if r.width is Some && r.height is Some {
        Some(size)
    } else {
        None
    };
    let count = match r.frames {
        Some(n) => Some(decimal(n as nat)),
        None => None,
    };
    let frames = ("frames"@, decimal(r.frames->0 as nat));
    let color = ("color type"@, r.color_type->0@);
    let a = seq![input, kind];
    assert(a[0] == input && a[1] == kind);
    let b = with_row(a, "format"@, opt_text(r.format));
    let c = with_row(b, "dimensions"@, both);
    let d = with_row(c, "frames"@, count);
    lemma_row_stays(a, "format"@, opt_text(r.format), input);
    lemma_row_stays(a, "format"@, opt_text(r.format), kind);
    lemma_row_stays(b, "dimensions"@, both, input);
    lemma_row_stays(b, "dimensions"@, both, kind);
    lemma_row_stays(b, "dimensions"@, both, format);
    lemma_row_stays(c, "frames"@, count, input);
    lemma_row_stays(c, "frames"@, count, kind);
    lemma_row_stays(c, "frames"@, count, format);
    lemma_row_stays(c, "frames"@, count, ("dimensions"@, size));
    lemma_row_stays(d, "color type"@, opt_text(r.color_type), input);
    lemma_row_stays(d, "color type"@, opt_text(r.color_type), kind);
    lemma_row_stays(d, "color type"@, opt_text(r.color_type), format);
    lemma_row_stays(d, "color type"@, opt_text(r.color_type), ("dimensions"@, size));
    lemma_row_stays(d, "color type"@, opt_text(r.color_type), frames);
    lemma_picture_row_is_shown(r, shown, input);
    lemma_picture_row_is_shown(r, shown, kind);
    lemma_picture_row_is_shown(r, shown, format);
    lemma_picture_row_is_shown(r, shown, ("dimensions"@, size));
    lemma_picture_row_is_shown(r, shown, frames);
    lemma_picture_row_is_shown(r, shown, color);
    let meshes = ("meshes"@, decimal(r.meshes->0 as nat));
    lemma_row_stays(picture_rows(r), "meshes"@, opt_number(r.meshes), input);
    lemma_mesh_row_is_shown(
        r,
        shown,
        with_row(picture_rows(r), "meshes"@, opt_number(r.meshes)),
        meshes,
    );
}

/// No key is wider than the column of keys, and the widest fills it.
pub proof fn law_key_column_fits_the_widest(rows: Seq<RowText>, n: nat)
    requires
        n <= rows.len(),
    ensures
        forall|i: int| 0 <= i < n ==> (#[trigger] rows[i]).0.len() <= key_width(rows, n),
        n > 0 ==> exists|i: int| 0 <= i < n && (#[trigger] rows[i]).0.len() == key_width(rows, n),
        n == 0 ==> key_width(rows, n) == 0,
    decreases n,
{
    if n > 0 {
        law_key_column_fits_the_widest(rows, (n - 1) as nat);
        if n == 1 {
            assert(rows[0].0.len() == key_width(rows, n));
        } else if rows[n - 1].0.len() <= key_width(rows, (n - 1) as nat) {
            let i = choose|i: int|
                0 <= i < n - 1 && (#[trigger] rows[i]).0.len() == key_width(rows, (n - 1) as nat);
            assert(rows[i].0.len() == key_width(rows, n));
        } else {
            assert(rows[n - 1].0.len() == key_width(rows, n));
        }
    }
}

/// The values of a report line up: each line starts with its key, has blanks up to the column of
/// values, two behind the widest key, then its value, and a line break at its end. The lines follow one
/// another in order.
pub proof fn law_values_line_up(rows: Seq<RowText>, width: nat, n: nat) -> (line: Seq<char>)
    requires
        0 < n <= rows.len(),
        rows[n - 1].0.len() <= width,
    ensures
        laid_out(rows, width, n) == laid_out(rows, width, (n - 1) as nat) + line,
        line.len() == width + 2 + rows[n - 1].1.len() + 1,
        line.take(rows[n - 1].0.len() as int) == rows[n - 1].0,
        forall|i: int| rows[n - 1].0.len() <= i < width + 2 ==> #[trigger] line[i] == ' ',
        line.subrange(width as int + 2, line.len() - 1) == rows[n - 1].1,
        line.last() == '\n',
{
    reveal_strlit("  ");
    reveal_strlit("\n");
    let (key, value) = rows[n - 1];
    let line = key + blanks((width - key.len()) as nat) + "  "@ + value + "\n"@;
    assert(laid_out(rows, width, n) =~= laid_out(rows, width, (n - 1) as nat) + line);
    assert(line.take(key.len() as int) =~= key);
    assert(line.subrange(width as int + 2, line.len() - 1) =~= value);
    line
}

/// A report on a picture tells its own width as the width and its height as the height: those of the
/// decoded image, or of the first frame of a GIF, and how many frames there are.
pub proof fn law_picture_reports_keep_the_size(
    r: Result<Report, Complaint>,
    input: Input,
    bytes: Seq<u8>,
    g: Report,
    frames: Seq<GifPicture>,
)
    ensures
        reports_image(r, input, bytes) && image_facts(bytes) is Ok ==> {
            &&& r is Ok
            &&& r->Ok_0.width is Some && r->Ok_0.width->0 == image_facts(bytes)->Ok_0.width
            &&& r->Ok_0.height is Some && r->Ok_0.height->0 == image_facts(bytes)->Ok_0.height
            &&& r->Ok_0.frames == Some(1u64)
        },
        reports_image(r, input, bytes) && image_facts(bytes) is Err ==> r is Err,
        is_gif_report(g, input, frames) && frames.len() > 0 ==> {
            &&& g.width is Some && g.width->0 == frames[0].image.width
            &&& g.height is Some && g.height->0 == frames[0].image.height
        },
        is_gif_report(g, input, frames) ==> g.frames is Some && g.frames->0 == frames.len(),
{
}

/// A report on a mesh tells each count under its own name; materials and animations only for formats
/// that declare them.
pub proof fn law_mesh_reports_keep_the_counts(
    r: Report,
    input: Input,
    format: MeshFormat,
    facts: MeshFacts,
)
    requires
        is_mesh_report(r, input, format, facts),
    ensures
        r.meshes == Some(facts.meshes),
        r.vertices == Some(facts.vertices),
        r.triangles == Some(facts.triangles),
        r.bounding_box == facts.size,
        format is Gltf || format is Blend ==> r.materials == Some(facts.materials) && r.animations
            == Some(facts.animations) && r.animation_names@ == facts.animation_names@,
        format is Obj || format is Stl ==> r.materials is None && r.animations is None
            && r.animation_names@.len() == 0,
{
}

} // verus!
