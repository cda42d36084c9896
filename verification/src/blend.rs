//! Blender `.blend` loading by exporting to glTF with a headless Blender.
//!
//! `.blend` is Blender's internal, version-specific binary format. A headless Blender
//! (`blender -b … --python … -- out.glb`) exports the scene to a temporary `.glb`, which is then
//! loaded like any other. Here are the command line, the export script, and what a failed run is
//! reported as.

use crate::error::Error;
use vstd::prelude::*;
use vstd::string::*;

verus! {

/// The Python run inside Blender to export the opened scene to a single GLB. `argv[-1]` is the
/// output path (everything after `--` is passed through to the script).
pub fn export_script() -> (s: &'static str)
    ensures
        s@
            == "\nimport bpy, sys\nout = sys.argv[-1]\nbpy.ops.export_scene.gltf(filepath=out, export_format='GLB', use_selection=False)\n"@,
{
    "\nimport bpy, sys\nout = sys.argv[-1]\nbpy.ops.export_scene.gltf(filepath=out, export_format='GLB', use_selection=False)\n"
}

/// Builds the headless-export argument list: `-b <in> --python <script> -- <out>`.
pub fn export_args(input: &str, script: &str, output: &str) -> (args: Vec<String>)
    ensures
        args@.len() == 6,
        args@[0]@ == "-b"@,
        args@[1]@ == input@,
        args@[2]@ == "--python"@,
        args@[3]@ == script@,
        args@[4]@ == "--"@,
        args@[5]@ == output@,
{
    let mut args: Vec<String> = Vec::new();
    args.push("-b".to_owned());
    args.push(input.to_owned());
    args.push("--python".to_owned());
    args.push(script.to_owned());
    args.push("--".to_owned());
    args.push(output.to_owned());
    args
}

/// The error for a file that is not there.
pub fn missing_blend(path: &str) -> (e: Error)
    ensures
        e is Io,
        e.detail() == "blend file not found: "@ + path@,
{
    let mut m = "blend file not found: ".to_owned();
    m.append(path);
    Error::Io(m)
}

/// The error for a Blender that could not be started, for the system's reason.
pub fn launch_failure(program: &str, reason: &str) -> (e: Error)
    ensures
        e is External,
        e.detail() == "could not run Blender ("@ + program@ + "): "@ + reason@
            + ". Install Blender, or set RGFX_BLENDER to its path, or export the model to .glb/.gltf and open that instead."@,
{
    let mut m = "could not run Blender (".to_owned();
    m.append(program);
    m.append("): ");
    m.append(reason);
    m.append(
        ". Install Blender, or set RGFX_BLENDER to its path, or export the model to .glb/.gltf and open that instead.",
    );
    Error::External(m)
}

/// The lines, joined by newlines.
pub open spec fn joined_lines(lines: Seq<String>) -> Seq<char>
    decreases lines.len(),
{
    if lines.len() == 0 {
        Seq::empty()
    } else if lines.len() == 1 {
        lines[0]@
    } else {
        joined_lines(lines.drop_last()).push('\n') + lines.last()@
    }
}

/// The last lines, at most eight of them.
pub open spec fn tail(lines: Seq<String>) -> Seq<String> {
    lines.skip(
        if lines.len() > 8 {
            lines.len() - 8
        } else {
            0
        },
    )
}

/// The last eight lines of what Blender printed, joined by newlines.
pub fn output_tail(lines: &[String]) -> (s: String)
    ensures
        s@ == joined_lines(tail(lines@)),
{
    let start: usize = if lines.len() > 8 {
        lines.len() - 8
    } else {
        0
    };
    let ghost last = tail(lines@);
    let mut s = String::new();
    let mut i: usize = start;
    assert(last.take(0) =~= Seq::<String>::empty());
    while i < lines.len()
        invariant
            start <= i <= lines.len(),
            last == lines@.skip(start as int),
            s@ == joined_lines(last.take(i - start)),
        decreases lines.len() - i,
    {
        let ghost before = last.take(i - start);
        let ghost after = last.take(i - start + 1);
        assert(after.drop_last() =~= before);
        assert(after.last() == lines@[i as int]);
        let ghost text = s@;
        if i > start {
            s.push('\n');
        } else {
            assert(after[0] == lines@[i as int]);
        }
        s.append(lines[i].as_str());
        assert(i == start ==> text + lines@[i as int]@ =~= lines@[i as int]@);
        i = i + 1;
    }
    assert(last.take(i - start) =~= last);
    s
}

/// Checks how an export ended: it failed where Blender reported a failure or left no file.
///
/// `status` is the text of how Blender ended, `lines` what it printed.
pub fn check_export(
    success: bool,
    file_exists: bool,
    input: &str,
    status: &str,
    lines: &[String],
) -> (r: Result<(), Error>)
    ensures
        r is Ok <==> success && file_exists,
        r is Err ==> r->Err_0 is External && r->Err_0.detail() == "Blender failed to export "@
            + input@ + " to glTF (exit "@ + status@ + ").\n"@ + joined_lines(tail(lines@)),
{
    if success && file_exists {
        return Ok(());
    }
    let mut m = "Blender failed to export ".to_owned();
    m.append(input);
    m.append(" to glTF (exit ");
    m.append(status);
    m.append(").\n");
    m.append(output_tail(lines).as_str());
    Err(Error::External(m))
}

/// Lines in two parts are joined by joining each part, with one line break between them.
pub proof fn law_joined_parts(first: Seq<String>, others: Seq<String>)
    requires
        first.len() > 0,
        others.len() > 0,
    ensures
        joined_lines(first + others) == joined_lines(first) + seq!['\n'] + joined_lines(others),
        first.len() == 1 ==> joined_lines(first) == first[0]@,
    decreases others.len(),
{
    let all = first + others;
    assert(all.drop_last() =~= first + others.drop_last());
    if others.len() == 1 {
        assert(all.drop_last() =~= first);
        assert(joined_lines(all) =~= joined_lines(first) + seq!['\n'] + others[0]@);
    } else {
        law_joined_parts(first, others.drop_last());
        assert(joined_lines(all) =~= joined_lines(first) + seq!['\n'] + joined_lines(others));
    }
}

/// Of what was printed, the last lines are shown: the last eight, or all where there are no more.
pub proof fn law_last_lines_are_shown(lines: Seq<String>, last: Seq<String>)
    ensures
        last.len() == 8 ==> tail(lines + last) == last,
        last.len() <= 8 ==> tail(last) == last,
{
    assert(last.len() == 8 ==> tail(lines + last) =~= last);
    assert(last.len() <= 8 ==> tail(last) =~= last);
}

} // verus!
