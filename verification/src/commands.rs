//! Validation and argument translation for the four user commands.
//!
//! Each command is planned by a pure function over the typed arguments and
//! a [`CommandEnv`] of probed facts. The checks run in one fixed order for
//! every command, and the first failure wins: engine present, then
//! syntactic validation (target format, time strings), then input
//! existence, then the overwrite gate. The engine check comes first so an
//! installation hint precedes any path probing, and syntactic validation
//! precedes every filesystem probe so a bad format or time string can
//! never leave an output file behind.

use vstd::prelude::*;

use crate::cli::{crf_of, CompressArgs, ConvertArgs, GifArgs, InfoArgs};
use crate::error::{is_supported_format, supported_format_views, supported_formats, VxError};
use crate::text::{
    ascii_lower, ascii_upper, dec_digit, dec_str, digit_str, lower_str, str_eq, u64_to_string,
};
use crate::utils::{
    affirmative, default_output_path, default_output_str, is_affirmative, parse_time,
    path_extension, path_file_name, spec_extension, spec_file_name, time_ms,
};

verus! {

/// Facts about the world the planner cannot observe itself; the binary
/// front end probes them and passes them in.
pub struct CommandEnv {
    /// The engine executable could be located.
    pub engine_installed: bool,
    /// The input path exists.
    pub input_exists: bool,
    /// The resolved output path already exists.
    pub output_exists: bool,
    /// The overwrite prompt's answer, when one could be read.
    pub prompt_answer: Option<String>,
}

/// Whether writing the output may proceed: forced, fresh path, or an
/// affirmative answer; an unreadable answer counts as declined.
pub open spec fn overwrite_allowed(
    force: bool,
    output_exists: bool,
    answer: Option<String>,
) -> bool {
    force || !output_exists || (answer matches Some(a) && affirmative(a@))
}

/// Whether the front end must prompt before overwriting.
pub fn needs_prompt(force: bool, output_exists: bool) -> (r: bool)
    ensures
        r == (!force && output_exists),
{
    !force && output_exists
}

/// Decides the overwrite gate from the probed facts.
pub fn confirm_overwrite(force: bool, output_exists: bool, answer: &Option<String>) -> (r: bool)
    ensures
        r == overwrite_allowed(force, output_exists, *answer),
{
    if force || !output_exists {
        true
    } else {
        match answer {
            Some(a) => is_affirmative(a.as_str()),
            None => false,
        }
    }
}

/// Everything one engine invocation needs: the ordered argument tokens
/// before and after the input flag, the output path, the progress
/// description, and the optional trim window that shapes the progress
/// total.
pub struct InvocationPlan {
    pub input: String,
    pub pre_input_args: Vec<String>,
    pub post_input_args: Vec<String>,
    pub output: String,
    pub description: String,
    pub start_ms: Option<u64>,
    pub limit_ms: Option<u64>,
}

/// The fixed codec argument pairs for each supported target format.
pub open spec fn codec_args_of(format: Seq<char>) -> Seq<Seq<char>> {
    if format == "mp4"@ || format == "mov"@ {
        seq!["-c:v"@, "libx264"@, "-c:a"@, "aac"@]
    } else if format == "webm"@ {
        seq!["-c:v"@, "libvpx-vp9"@, "-c:a"@, "libopus"@]
    } else if format == "avi"@ {
        seq!["-c:v"@, "mpeg4"@, "-c:a"@, "libmp3lame"@]
    } else if format == "gif"@ {
        seq![
            "-vf"@,
            "fps=10,scale=480:-1:flags=lanczos,split[s0][s1];[s0]palettegen[p];[s1][p]paletteuse"@,
        ]
    } else {
        Seq::empty()
    }
}

/// The fixed encoder arguments a supported target format maps to; an
/// unknown format maps to no arguments.
pub fn get_codec_args(format: &str) -> (r: Vec<String>)
    ensures
        r@.map_values(|s: String| s@) == codec_args_of(format@),
{
    let mut v: Vec<String> = Vec::new();
    if str_eq(format, "mp4") || str_eq(format, "mov") {
        v.push(String::from_str("-c:v"));
        v.push(String::from_str("libx264"));
        v.push(String::from_str("-c:a"));
        v.push(String::from_str("aac"));
    } else if str_eq(format, "webm") {
        v.push(String::from_str("-c:v"));
        v.push(String::from_str("libvpx-vp9"));
        v.push(String::from_str("-c:a"));
        v.push(String::from_str("libopus"));
    } else if str_eq(format, "avi") {
        v.push(String::from_str("-c:v"));
        v.push(String::from_str("mpeg4"));
        v.push(String::from_str("-c:a"));
        v.push(String::from_str("libmp3lame"));
    } else if str_eq(format, "gif") {
        v.push(String::from_str("-vf"));
        v.push(
            String::from_str(
                "fps=10,scale=480:-1:flags=lanczos,split[s0][s1];[s0]palettegen[p];[s1][p]paletteuse",
            ),
        );
    }
    proof {
        assert(v@.map_values(|s: String| s@) =~= codec_args_of(format@));
    }
    v
}

/// The GIF filter graph: frame-rate resampling, lanczos width scaling with
/// the height kept to aspect, and two-pass palette generation.
pub open spec fn gif_filter_str(fps: int, width: int) -> Seq<char> {
    "fps="@ + dec_str(fps) + ",scale="@ + dec_str(width)
        + ":-1:flags=lanczos,split[s0][s1];[s0]palettegen[p];[s1][p]paletteuse"@
}

/// Builds the GIF filter graph for a frame rate and a width.
pub fn gif_filter(fps: u32, width: u32) -> (r: String)
    ensures
        r@ == gif_filter_str(fps as int, width as int),
{
    String::from_str("fps=").concat(u64_to_string(fps as u64).as_str()).concat(",scale=").concat(
        u64_to_string(width as u64).as_str(),
    ).concat(":-1:flags=lanczos,split[s0][s1];[s0]palettegen[p];[s1][p]paletteuse")
}

/// The advisory progress-bar total for a trimmed clip: what remains of
/// the total after the start seek, further capped by the requested
/// length; clamped at zero, never negative.
pub open spec fn effective_duration_of(total: u64, start: Option<u64>, limit: Option<u64>) -> int {
    let after_start = match start {
        Some(s) => if s <= total {
            total as int - s as int
        } else {
            0
        },
        None => total as int,
    };
    match limit {
        Some(d) => if d as int <= after_start {
            d as int
        } else {
            after_start
        },
        None => after_start,
    }
}

/// Computes the progress-bar total for a trimmed clip.
pub fn effective_duration_ms(total_ms: u64, start_ms: Option<u64>, limit_ms: Option<u64>) -> (r:
    u64)
    ensures
        r as int == effective_duration_of(total_ms, start_ms, limit_ms),
{
    let after_start: u64 = match start_ms {
        Some(s) => if s <= total_ms {
            total_ms - s
        } else {
            0
        },
        None => total_ms,
    };
    match limit_ms {
        Some(d) => if d <= after_start {
            d
        } else {
            after_start
        },
        None => after_start,
    }
}

/// Milliseconds rendered as a seconds argument for the engine: whole
/// seconds, then up to three fraction digits without trailing zeros.
pub open spec fn secs_arg_str(ms: int) -> Seq<char> {
    let whole = dec_str(ms / 1000);
    let r = ms % 1000;
    if r == 0 {
        whole
    } else if r % 100 == 0 {
        whole + "."@ + seq![dec_digit(r / 100)]
    } else if r % 10 == 0 {
        whole + "."@ + seq![dec_digit(r / 100)] + seq![dec_digit((r / 10) % 10)]
    } else {
        whole + "."@ + seq![dec_digit(r / 100)] + seq![dec_digit((r / 10) % 10)] + seq![
            dec_digit(r % 10),
        ]
    }
}

/// Renders milliseconds as a seconds argument for the engine.
pub fn ms_to_secs_string(ms: u64) -> (r: String)
    ensures
        r@ == secs_arg_str(ms as int),
{
    let whole = u64_to_string(ms / 1000);
    let rem = ms % 1000;
    if rem == 0 {
        whole
    } else if rem % 100 == 0 {
        whole.concat(".").concat(digit_str(rem / 100))
    } else if rem % 10 == 0 {
        whole.concat(".").concat(digit_str(rem / 100)).concat(digit_str((rem / 10) % 10))
    } else {
        whole.concat(".").concat(digit_str(rem / 100)).concat(digit_str((rem / 10) % 10)).concat(
            digit_str(rem % 10),
        )
    }
}

/// The output path the compress command writes: the explicit choice, or
/// the input with `_compressed` before its own extension (`mp4` when the
/// input has none).
pub open spec fn compress_output(args: CompressArgs) -> Seq<char> {
    match args.output {
        Some(o) => o@,
        None => default_output_str(
            args.input@,
            Some("_compressed"@),
            match spec_extension(args.input@) {
                Some(e) => e,
                None => "mp4"@,
            },
        ),
    }
}

/// The fixed encoding arguments of the compress command at one quality.
pub open spec fn compress_args_of(q: crate::cli::Quality) -> Seq<Seq<char>> {
    seq![
        "-c:v"@,
        "libx264"@,
        "-crf"@,
        dec_str(crf_of(q) as int),
        "-preset"@,
        "medium"@,
        "-c:a"@,
        "aac"@,
        "-b:a"@,
        "128k"@,
        "-movflags"@,
        "+faststart"@,
    ]
}

/// Validates and plans the compress command.
///
/// Checks run in the fixed order: engine present, input present,
/// overwrite gate. On success the plan carries the H.264/AAC encoding
/// arguments at the chosen quality and a `Compressing a → b` description.
pub fn compress_plan(args: &CompressArgs, env: &CommandEnv) -> (r: Result<InvocationPlan, VxError>)
    ensures
        !env.engine_installed ==> r matches Err(VxError::FfmpegNotFound),
        env.engine_installed && !env.input_exists ==> (r matches Err(VxError::InputNotFound(p))
            && p@ == args.input@),
        env.engine_installed && env.input_exists && !overwrite_allowed(
            args.force,
            env.output_exists,
            env.prompt_answer,
        ) ==> r matches Err(VxError::Cancelled),
        env.engine_installed && env.input_exists && overwrite_allowed(
            args.force,
            env.output_exists,
            env.prompt_answer,
        ) ==> (r matches Ok(p) && p.input@ == args.input@ && p.output@ == compress_output(*args)
            && p.pre_input_args@.len() == 0 && p.post_input_args@.map_values(|s: String| s@)
            == compress_args_of(args.quality) && p.description@ == "Compressing "@
            + spec_file_name(args.input@) + " → "@ + spec_file_name(compress_output(*args))
            && p.start_ms is None && p.limit_ms is None),
{
    if !env.engine_installed {
        return Err(VxError::FfmpegNotFound);
    }
    if !env.input_exists {
        return Err(VxError::InputNotFound(args.input.clone()));
    }
    let output: String = match &args.output {
        Some(o) => o.clone(),
        None => {
            let ext: String = match path_extension(args.input.as_str()) {
                Some(e) => e,
                None => String::from_str("mp4"),
            };
            default_output_path(args.input.as_str(), Some("_compressed"), ext.as_str())
        },
    };
    if !confirm_overwrite(args.force, env.output_exists, &env.prompt_answer) {
        return Err(VxError::Cancelled);
    }
    let description = String::from_str("Compressing ").concat(
        path_file_name(args.input.as_str()).as_str(),
    ).concat(" → ").concat(path_file_name(output.as_str()).as_str());
    let crf_arg = u64_to_string(args.quality.crf() as u64);
    let mut post: Vec<String> = Vec::new();
    post.push(String::from_str("-c:v"));
    post.push(String::from_str("libx264"));
    post.push(String::from_str("-crf"));
    post.push(crf_arg);
    post.push(String::from_str("-preset"));
    post.push(String::from_str("medium"));
    post.push(String::from_str("-c:a"));
    post.push(String::from_str("aac"));
    post.push(String::from_str("-b:a"));
    post.push(String::from_str("128k"));
    post.push(String::from_str("-movflags"));
    post.push(String::from_str("+faststart"));
    proof {
        assert(post@.map_values(|s: String| s@) =~= compress_args_of(args.quality));
    }
    Ok(
        InvocationPlan {
            input: args.input.clone(),
            pre_input_args: Vec::new(),
            post_input_args: post,
            output,
            description,
            start_ms: None,
            limit_ms: None,
        },
    )
}

/// The convert command's target format with ASCII letters lowercased; a
/// value with characters outside ASCII is left as given.
pub open spec fn normalized_format(f: Seq<char>) -> Seq<char> {
    if vstd::utf8::is_ascii_chars(f) {
        lower_str(f)
    } else {
        f
    }
}

/// The output path the convert command writes: the explicit choice, or
/// the input with its extension replaced by the normalized format.
pub open spec fn convert_output(args: ConvertArgs) -> Seq<char> {
    match args.output {
        Some(o) => o@,
        None => default_output_str(args.input@, None, normalized_format(args.format@)),
    }
}

/// Validates and plans the format-convert command.
///
/// Checks run in the fixed order: engine present, target format in the
/// supported set, input present, overwrite gate. An unsupported format is
/// rejected before any path is probed, so no output file can exist for it.
pub fn convert_plan(args: &ConvertArgs, env: &CommandEnv) -> (r: Result<InvocationPlan, VxError>)
    ensures
        !env.engine_installed ==> r matches Err(VxError::FfmpegNotFound),
        env.engine_installed && !is_supported_format(normalized_format(args.format@)) ==> (r
            matches Err(VxError::UnsupportedFormat { format, supported }) && format@
            == normalized_format(args.format@) && supported@.map_values(|s: String| s@)
            == supported_format_views()),
        env.engine_installed && is_supported_format(normalized_format(args.format@))
            && !env.input_exists ==> (r matches Err(VxError::InputNotFound(p)) && p@
            == args.input@),
        env.engine_installed && is_supported_format(normalized_format(args.format@))
            && env.input_exists && !overwrite_allowed(
            args.force,
            env.output_exists,
            env.prompt_answer,
        ) ==> r matches Err(VxError::Cancelled),
        env.engine_installed && is_supported_format(normalized_format(args.format@))
            && env.input_exists && overwrite_allowed(
            args.force,
            env.output_exists,
            env.prompt_answer,
        ) ==> (r matches Ok(p) && p.input@ == args.input@ && p.output@ == convert_output(*args)
            && p.pre_input_args@.len() == 0 && p.post_input_args@.map_values(|s: String| s@)
            == codec_args_of(normalized_format(args.format@)) && p.description@ == "Converting "@
            + spec_file_name(args.input@) + " → "@ + spec_file_name(convert_output(*args))
            && p.start_ms is None && p.limit_ms is None),
{
    if !env.engine_installed {
        return Err(VxError::FfmpegNotFound);
    }
    let format = ascii_lower(args.format.as_str());
    let supported = {
        let s1 = str_eq(format.as_str(), "mp4");
        let s2 = str_eq(format.as_str(), "webm");
        let s3 = str_eq(format.as_str(), "mov");
        let s4 = str_eq(format.as_str(), "avi");
        let s5 = str_eq(format.as_str(), "gif");
        s1 || s2 || s3 || s4 || s5
    };
    if !supported {
        return Err(
            VxError::UnsupportedFormat { format, supported: supported_formats() },
        );
    }
    if !env.input_exists {
        return Err(VxError::InputNotFound(args.input.clone()));
    }
    let output: String = match &args.output {
        Some(o) => o.clone(),
        None => default_output_path(args.input.as_str(), None, format.as_str()),
    };
    if !confirm_overwrite(args.force, env.output_exists, &env.prompt_answer) {
        return Err(VxError::Cancelled);
    }
    let description = String::from_str("Converting ").concat(
        path_file_name(args.input.as_str()).as_str(),
    ).concat(" → ").concat(path_file_name(output.as_str()).as_str());
    let post = get_codec_args(format.as_str());
    Ok(
        InvocationPlan {
            input: args.input.clone(),
            pre_input_args: Vec::new(),
            post_input_args: post,
            output,
            description,
            start_ms: None,
            limit_ms: None,
        },
    )
}

/// The output path the GIF command writes: the explicit choice, or the
/// input with its extension replaced by `gif`.
pub open spec fn gif_output(args: GifArgs) -> Seq<char> {
    match args.output {
        Some(o) => o@,
        None => default_output_str(args.input@, None, "gif"@),
    }
}

/// A time string that parses to no millisecond value this machine can
/// hold.
pub open spec fn time_invalid(s: Seq<char>) -> bool {
    time_ms(s) is None || time_ms(s).unwrap() > u64::MAX
}

/// Validates and plans the convert-to-GIF command.
///
/// Checks run in the fixed order: engine present, start time well formed,
/// input present, overwrite gate. A start seek is placed before the input
/// flag (fast, keyframe-aligned seeking); the length cap and the filter
/// graph come after it.
pub fn gif_plan(args: &GifArgs, env: &CommandEnv) -> (r: Result<InvocationPlan, VxError>)
    ensures
        !env.engine_installed ==> r matches Err(VxError::FfmpegNotFound),
        env.engine_installed && (args.start matches Some(st) && time_invalid(st@)) ==> (r matches
            Err(VxError::InvalidTime(t)) && args.start matches Some(st) && t@ == st@),
        env.engine_installed && (match args.start {
            Some(st) => !time_invalid(st@),
            None => true,
        }) && !env.input_exists ==> (r matches Err(VxError::InputNotFound(p)) && p@
            == args.input@),
        env.engine_installed && (match args.start {
            Some(st) => !time_invalid(st@),
            None => true,
        }) && env.input_exists && !overwrite_allowed(
            args.force,
            env.output_exists,
            env.prompt_answer,
        ) ==> r matches Err(VxError::Cancelled),
        env.engine_installed && (match args.start {
            Some(st) => !time_invalid(st@),
            None => true,
        }) && env.input_exists && overwrite_allowed(
            args.force,
            env.output_exists,
            env.prompt_answer,
        ) ==> (r matches Ok(p) && p.input@ == args.input@ && p.output@ == gif_output(*args)
            && p.description@ == "Converting "@ + spec_file_name(args.input@) + " → "@
            + spec_file_name(gif_output(*args)) && (match args.start {
            Some(st) => p.start_ms matches Some(sm) && time_ms(st@) == Some(sm as int)
                && p.pre_input_args@.map_values(|s: String| s@) =~= seq![
                "-ss"@,
                secs_arg_str(sm as int),
            ],
            None => p.pre_input_args@.len() == 0 && p.start_ms is None,
        }) && (match args.duration_ms {
            Some(d) => p.limit_ms == Some(d) && p.post_input_args@.map_values(|s: String| s@)
                =~= seq![
                "-t"@,
                secs_arg_str(d as int),
                "-vf"@,
                gif_filter_str(args.fps as int, args.width as int),
            ],
            None => p.limit_ms is None && p.post_input_args@.map_values(|s: String| s@) =~= seq![
                "-vf"@,
                gif_filter_str(args.fps as int, args.width as int),
            ],
        })),
{
    if !env.engine_installed {
        return Err(VxError::FfmpegNotFound);
    }
    let start_ms: Option<u64> = match &args.start {
        Some(st) => {
            match parse_time(st.as_str()) {
                Ok(v) => Some(v),
                Err(e) => {
                    return Err(e);
                },
            }
        },
        None => None,
    };
    if !env.input_exists {
        return Err(VxError::InputNotFound(args.input.clone()));
    }
    let output: String = match &args.output {
        Some(o) => o.clone(),
        None => default_output_path(args.input.as_str(), None, "gif"),
    };
    if !confirm_overwrite(args.force, env.output_exists, &env.prompt_answer) {
        return Err(VxError::Cancelled);
    }
    let description = String::from_str("Converting ").concat(
        path_file_name(args.input.as_str()).as_str(),
    ).concat(" → ").concat(path_file_name(output.as_str()).as_str());
    let mut pre: Vec<String> = Vec::new();
    match start_ms {
        Some(sm) => {
            pre.push(String::from_str("-ss"));
            pre.push(ms_to_secs_string(sm));
        },
        None => {},
    }
    let filter = gif_filter(args.fps, args.width);
    let mut post: Vec<String> = Vec::new();
    match args.duration_ms {
        Some(d) => {
            post.push(String::from_str("-t"));
            post.push(ms_to_secs_string(d));
        },
        None => {},
    }
    post.push(String::from_str("-vf"));
    post.push(filter);
    Ok(
        InvocationPlan {
            input: args.input.clone(),
            pre_input_args: pre,
            post_input_args: post,
            output,
            description,
            start_ms,
            limit_ms: args.duration_ms,
        },
    )
}

/// A codec name with ASCII letters uppercased; a value with characters
/// outside ASCII is left as given.
pub open spec fn normalized_upper(f: Seq<char>) -> Seq<char> {
    if vstd::utf8::is_ascii_chars(f) {
        crate::text::upper_str(f)
    } else {
        f
    }
}

/// The codec column of the info output: the video codec, and the audio
/// codec after a separator when one is there.
pub open spec fn codec_display_str(video: Seq<char>, audio: Option<Seq<char>>) -> Seq<char> {
    match audio {
        Some(a) => normalized_upper(video) + " / "@ + normalized_upper(a),
        None => normalized_upper(video),
    }
}

/// The fixed-order labeled lines the info command prints: file name,
/// rule, duration, resolution, frame rate (rounded half-up to whole
/// frames), codecs, file size, bit rate.
pub fn info_lines(filename: &str, info: &crate::runner::VideoInfo) -> (r: Vec<String>)
    ensures
        r@.map_values(|s: String| s@) == seq![
            filename@,
            "─────────────────────────"@,
            "Duration    : "@ + crate::utils::duration_str(info.duration_ms as int),
            "Resolution  : "@ + dec_str(info.width as int) + "x"@ + dec_str(info.height as int),
            "FPS         : "@ + dec_str((info.fps_milli + 500) as int / 1000),
            "Codec       : "@ + codec_display_str(
                info.video_codec@,
                match info.audio_codec {
                    Some(a) => Some(a@),
                    None => None,
                },
            ),
            "File size   : "@ + crate::utils::size_str(info.file_size as int),
            "Bitrate     : "@ + crate::utils::bitrate_str(info.bitrate as int),
        ],
{
    let mut v: Vec<String> = Vec::new();
    v.push(String::from_str(filename));
    v.push(String::from_str("─────────────────────────"));
    v.push(
        String::from_str("Duration    : ").concat(
            crate::utils::format_duration(info.duration_ms).as_str(),
        ),
    );
    v.push(
        String::from_str("Resolution  : ").concat(
            u64_to_string(info.width as u64).as_str(),
        ).concat("x").concat(u64_to_string(info.height as u64).as_str()),
    );
    let fps_whole: u64 = ((info.fps_milli as u64) + 500) / 1000;
    v.push(String::from_str("FPS         : ").concat(u64_to_string(fps_whole).as_str()));
    let codec = match &info.audio_codec {
        Some(a) => ascii_upper(info.video_codec.as_str()).concat(" / ").concat(
            ascii_upper(a.as_str()).as_str(),
        ),
        None => ascii_upper(info.video_codec.as_str()),
    };
    v.push(String::from_str("Codec       : ").concat(codec.as_str()));
    v.push(
        String::from_str("File size   : ").concat(
            crate::utils::format_size(info.file_size).as_str(),
        ),
    );
    v.push(
        String::from_str("Bitrate     : ").concat(
            crate::utils::format_bitrate(info.bitrate).as_str(),
        ),
    );
    proof {
        assert(v@.map_values(|s: String| s@) =~= seq![
            filename@,
            "─────────────────────────"@,
            "Duration    : "@ + crate::utils::duration_str(info.duration_ms as int),
            "Resolution  : "@ + dec_str(info.width as int) + "x"@ + dec_str(info.height as int),
            "FPS         : "@ + dec_str((info.fps_milli + 500) as int / 1000),
            "Codec       : "@ + codec_display_str(
                info.video_codec@,
                match info.audio_codec {
                    Some(a) => Some(a@),
                    None => None,
                },
            ),
            "File size   : "@ + crate::utils::size_str(info.file_size as int),
            "Bitrate     : "@ + crate::utils::bitrate_str(info.bitrate as int),
        ]);
    }
    v
}

/// Validates the inspect-metadata command: engine present, then input
/// present; it names no output and prompts for nothing.
pub fn info_plan(args: &InfoArgs, env: &CommandEnv) -> (r: Result<(), VxError>)
    ensures
        !env.engine_installed ==> r matches Err(VxError::FfmpegNotFound),
        env.engine_installed && !env.input_exists ==> (r matches Err(VxError::InputNotFound(p))
            && p@ == args.input@),
        env.engine_installed && env.input_exists ==> r matches Ok(_),
{
    if !env.engine_installed {
        return Err(VxError::FfmpegNotFound);
    }
    if !env.input_exists {
        return Err(VxError::InputNotFound(args.input.clone()));
    }
    Ok(())
}

} // verus!
