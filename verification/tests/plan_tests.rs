use vx::cli::{CompressArgs, ConvertArgs, GifArgs, InfoArgs, Quality};
use vx::commands::{
    compress_plan, confirm_overwrite, convert_plan, effective_duration_ms, get_codec_args,
    gif_filter, gif_plan, info_lines, info_plan, ms_to_secs_string, needs_prompt, CommandEnv,
};
use vx::error::VxError;
use vx::runner::{
    compute_bitrate, drain_events, duration_from_events, parse_time_to_ms, run_outcome, run_step,
    video_info_from_events, DisplayAction, EngineEvent, LogLevel, RunState, StreamInfo,
    StreamKind, VideoInfo,
};

fn env_all_clear() -> CommandEnv {
    CommandEnv {
        engine_installed: true,
        input_exists: true,
        output_exists: false,
        prompt_answer: None,
    }
}

#[test]
fn quality_crf_scale() {
    assert_eq!(Quality::Low.crf(), 28);
    assert_eq!(Quality::Medium.crf(), 23);
    assert_eq!(Quality::High.crf(), 18);
}

#[test]
fn codec_args_per_format() {
    assert_eq!(get_codec_args("mp4"), ["-c:v", "libx264", "-c:a", "aac"]);
    assert_eq!(get_codec_args("mov"), ["-c:v", "libx264", "-c:a", "aac"]);
    assert_eq!(get_codec_args("webm"), ["-c:v", "libvpx-vp9", "-c:a", "libopus"]);
    assert_eq!(get_codec_args("avi"), ["-c:v", "mpeg4", "-c:a", "libmp3lame"]);
    assert_eq!(
        get_codec_args("gif"),
        [
            "-vf",
            "fps=10,scale=480:-1:flags=lanczos,split[s0][s1];[s0]palettegen[p];[s1][p]paletteuse"
        ]
    );
    assert!(get_codec_args("flv").is_empty());
}

#[test]
fn gif_filter_string() {
    assert_eq!(
        gif_filter(10, 480),
        "fps=10,scale=480:-1:flags=lanczos,split[s0][s1];[s0]palettegen[p];[s1][p]paletteuse"
    );
    assert_eq!(
        gif_filter(24, 320),
        "fps=24,scale=320:-1:flags=lanczos,split[s0][s1];[s0]palettegen[p];[s1][p]paletteuse"
    );
}

#[test]
fn effective_duration_cases() {
    assert_eq!(effective_duration_ms(100_000, Some(10_000), None), 90_000);
    assert_eq!(effective_duration_ms(100_000, None, Some(200_000)), 100_000);
    assert_eq!(effective_duration_ms(50_000, Some(60_000), None), 0);
    assert_eq!(effective_duration_ms(100_000, Some(10_000), Some(30_000)), 30_000);
    assert_eq!(effective_duration_ms(100_000, None, None), 100_000);
}

#[test]
fn seconds_argument_rendering() {
    assert_eq!(ms_to_secs_string(90_000), "90");
    assert_eq!(ms_to_secs_string(90_500), "90.5");
    assert_eq!(ms_to_secs_string(1_230), "1.23");
    assert_eq!(ms_to_secs_string(1_234), "1.234");
    assert_eq!(ms_to_secs_string(0), "0");
}

#[test]
fn overwrite_gate() {
    assert!(!needs_prompt(true, true));
    assert!(needs_prompt(false, true));
    assert!(!needs_prompt(false, false));
    assert!(confirm_overwrite(true, true, &None));
    assert!(confirm_overwrite(false, false, &None));
    assert!(confirm_overwrite(false, true, &Some(String::from("yes"))));
    assert!(!confirm_overwrite(false, true, &Some(String::from("no"))));
    assert!(!confirm_overwrite(false, true, &None));
}

#[test]
fn engine_missing_reported_before_input_checks() {
    let env = CommandEnv {
        engine_installed: false,
        input_exists: false,
        output_exists: true,
        prompt_answer: None,
    };
    let args = CompressArgs {
        input: String::from("missing.mov"),
        output: None,
        quality: Quality::Medium,
        force: false,
    };
    assert!(matches!(compress_plan(&args, &env), Err(VxError::FfmpegNotFound)));
    let c_args = ConvertArgs {
        format: String::from("flv"),
        input: String::from("missing.mov"),
        output: None,
        force: false,
    };
    assert!(matches!(convert_plan(&c_args, &env), Err(VxError::FfmpegNotFound)));
    let i_args = InfoArgs { input: String::from("missing.mov") };
    assert!(matches!(info_plan(&i_args, &env), Err(VxError::FfmpegNotFound)));
}

#[test]
fn unsupported_convert_format_fails_validation() {
    let env = CommandEnv {
        engine_installed: true,
        input_exists: false,
        output_exists: false,
        prompt_answer: None,
    };
    let args = ConvertArgs {
        format: String::from("flv"),
        input: String::from("absent.mov"),
        output: None,
        force: true,
    };
    match convert_plan(&args, &env) {
        Err(VxError::UnsupportedFormat { format, supported }) => {
            assert_eq!(format, "flv");
            assert_eq!(supported, ["mp4", "webm", "mov", "avi", "gif"]);
        },
        other => panic!("expected unsupported format, got {:?}", other.is_ok()),
    }
}

#[test]
fn convert_format_is_case_insensitive() {
    let env = env_all_clear();
    let args = ConvertArgs {
        format: String::from("MP4"),
        input: String::from("in.avi"),
        output: None,
        force: true,
    };
    let plan = convert_plan(&args, &env).unwrap();
    assert_eq!(plan.output, "in.mp4");
    assert_eq!(plan.post_input_args, ["-c:v", "libx264", "-c:a", "aac"]);
    assert_eq!(plan.description, "Converting in.avi → in.mp4");
}

#[test]
fn cancelled_when_output_exists_and_declined() {
    let envs = [
        CommandEnv {
            engine_installed: true,
            input_exists: true,
            output_exists: true,
            prompt_answer: Some(String::from("n")),
        },
        CommandEnv {
            engine_installed: true,
            input_exists: true,
            output_exists: true,
            prompt_answer: None,
        },
    ];
    for env in envs {
        let args = CompressArgs {
            input: String::from("clip.mov"),
            output: None,
            quality: Quality::Medium,
            force: false,
        };
        assert!(matches!(compress_plan(&args, &env), Err(VxError::Cancelled)));
    }
}

#[test]
fn compress_plan_default_output_and_args() {
    let args = CompressArgs {
        input: String::from("clip.mov"),
        output: None,
        quality: Quality::High,
        force: true,
    };
    let plan = compress_plan(&args, &env_all_clear()).unwrap();
    assert_eq!(plan.output, "clip_compressed.mov");
    assert_eq!(
        plan.post_input_args,
        [
            "-c:v",
            "libx264",
            "-crf",
            "18",
            "-preset",
            "medium",
            "-c:a",
            "aac",
            "-b:a",
            "128k",
            "-movflags",
            "+faststart"
        ]
    );
    assert!(plan.pre_input_args.is_empty());
    assert_eq!(plan.description, "Compressing clip.mov → clip_compressed.mov");
    assert_eq!(plan.input, "clip.mov");
}

#[test]
fn compress_plan_input_missing() {
    let env = CommandEnv {
        engine_installed: true,
        input_exists: false,
        output_exists: false,
        prompt_answer: None,
    };
    let args = CompressArgs {
        input: String::from("gone.mov"),
        output: None,
        quality: Quality::Medium,
        force: false,
    };
    match compress_plan(&args, &env) {
        Err(VxError::InputNotFound(p)) => assert_eq!(p, "gone.mov"),
        _ => panic!("expected input-not-found"),
    }
}

#[test]
fn gif_plan_trim_window() {
    let args = GifArgs {
        input: String::from("demo.mp4"),
        output: None,
        width: 480,
        fps: 10,
        start: Some(String::from("0:10")),
        duration_ms: Some(5_000),
        force: true,
    };
    let plan = gif_plan(&args, &env_all_clear()).unwrap();
    assert_eq!(plan.output, "demo.gif");
    assert_eq!(plan.pre_input_args, ["-ss", "10"]);
    assert_eq!(
        plan.post_input_args,
        [
            "-t",
            "5",
            "-vf",
            "fps=10,scale=480:-1:flags=lanczos,split[s0][s1];[s0]palettegen[p];[s1][p]paletteuse"
        ]
    );
    assert_eq!(plan.start_ms, Some(10_000));
    assert_eq!(plan.limit_ms, Some(5_000));
    assert_eq!(plan.description, "Converting demo.mp4 → demo.gif");
}

#[test]
fn gif_plan_without_trim() {
    let args = GifArgs {
        input: String::from("demo.mp4"),
        output: Some(String::from("out.gif")),
        width: 320,
        fps: 24,
        start: None,
        duration_ms: None,
        force: true,
    };
    let plan = gif_plan(&args, &env_all_clear()).unwrap();
    assert_eq!(plan.output, "out.gif");
    assert!(plan.pre_input_args.is_empty());
    assert_eq!(
        plan.post_input_args,
        [
            "-vf",
            "fps=24,scale=320:-1:flags=lanczos,split[s0][s1];[s0]palettegen[p];[s1][p]paletteuse"
        ]
    );
    assert_eq!(plan.start_ms, None);
    assert_eq!(plan.limit_ms, None);
}

#[test]
fn convert_to_gif_uses_default_filter() {
    let args = ConvertArgs {
        format: String::from("gif"),
        input: String::from("demo.mp4"),
        output: None,
        force: true,
    };
    let plan = convert_plan(&args, &env_all_clear()).unwrap();
    assert_eq!(plan.output, "demo.gif");
    assert_eq!(
        plan.post_input_args,
        [
            "-vf",
            "fps=10,scale=480:-1:flags=lanczos,split[s0][s1];[s0]palettegen[p];[s1][p]paletteuse"
        ]
    );
}

#[test]
fn gif_plan_bad_start_time() {
    let args = GifArgs {
        input: String::from("demo.mp4"),
        output: None,
        width: 480,
        fps: 10,
        start: Some(String::from("ten")),
        duration_ms: None,
        force: true,
    };
    match gif_plan(&args, &env_all_clear()) {
        Err(VxError::InvalidTime(t)) => assert_eq!(t, "ten"),
        _ => panic!("expected invalid time"),
    }
}

#[test]
fn run_fold_keeps_last_error() {
    let events = vec![
        EngineEvent::Log(LogLevel::Error, String::from("first")),
        EngineEvent::Log(LogLevel::Info, String::from("noise")),
        EngineEvent::Log(LogLevel::Fatal, String::from("second")),
        EngineEvent::Done,
    ];
    match drain_events(&events) {
        Err(VxError::FfmpegError(m)) => assert_eq!(m, "second"),
        _ => panic!("expected engine error"),
    }
    let clean = vec![
        EngineEvent::Log(LogLevel::Warning, String::from("w")),
        EngineEvent::Progress(String::from("0:01")),
        EngineEvent::Done,
    ];
    assert!(drain_events(&clean).is_ok());
}

#[test]
fn run_step_actions() {
    let s0 = RunState::new();
    let (s1, a1) = run_step(s0, &EngineEvent::Progress(String::from("1:30")));
    assert_eq!(a1, DisplayAction::Update(90_000));
    let (s2, a2) = run_step(s1, &EngineEvent::Progress(String::from("bogus")));
    assert_eq!(a2, DisplayAction::Nothing);
    let (s3, a3) = run_step(s2, &EngineEvent::Done);
    assert_eq!(a3, DisplayAction::Finish);
    assert!(run_outcome(s3).is_ok());
}

#[test]
fn progress_timestamp_parsing() {
    assert_eq!(parse_time_to_ms("00:00:01.5"), Some(1_500));
    assert_eq!(parse_time_to_ms("12:34.56"), Some(754_560));
    assert_eq!(parse_time_to_ms("3"), Some(3_000));
    assert_eq!(parse_time_to_ms("N/A"), None);
    assert_eq!(parse_time_to_ms(""), None);
}

#[test]
fn duration_probe_precedence() {
    let explicit_last = vec![
        EngineEvent::ParsedInput(Some(5_000)),
        EngineEvent::ParsedDuration(7_000),
    ];
    assert_eq!(duration_from_events(&explicit_last), 7_000);
    let explicit_first = vec![
        EngineEvent::ParsedDuration(7_000),
        EngineEvent::ParsedInput(Some(5_000)),
    ];
    assert_eq!(duration_from_events(&explicit_first), 7_000);
    let fallback = vec![
        EngineEvent::ParsedInput(None),
        EngineEvent::ParsedInput(Some(3_000)),
    ];
    assert_eq!(duration_from_events(&fallback), 3_000);
    let empty: Vec<EngineEvent> = vec![];
    assert_eq!(duration_from_events(&empty), 0);
}

#[test]
fn bitrate_computation() {
    assert_eq!(compute_bitrate(1_000, 1_000), 8_000);
    assert_eq!(compute_bitrate(0, 1_000), 0);
    assert_eq!(compute_bitrate(1_000, 0), 0);
    assert_eq!(compute_bitrate(u64::MAX, 1), u64::MAX);
}

#[test]
fn video_info_takes_first_streams() {
    let events = vec![
        EngineEvent::ParsedDuration(10_000),
        EngineEvent::ParsedInputStream(StreamInfo {
            format: String::from("h264"),
            kind: StreamKind::Video { width: 1920, height: 1080, fps_milli: 29_970 },
        }),
        EngineEvent::ParsedInputStream(StreamInfo {
            format: String::from("vp9"),
            kind: StreamKind::Video { width: 640, height: 480, fps_milli: 15_000 },
        }),
        EngineEvent::ParsedInputStream(StreamInfo {
            format: String::from("aac"),
            kind: StreamKind::Audio,
        }),
        EngineEvent::ParsedInputStream(StreamInfo {
            format: String::from("mp3"),
            kind: StreamKind::Audio,
        }),
    ];
    let info = video_info_from_events(&events, 1_250_000);
    assert_eq!(info.duration_ms, 10_000);
    assert_eq!(info.width, 1920);
    assert_eq!(info.height, 1080);
    assert_eq!(info.fps_milli, 29_970);
    assert_eq!(info.video_codec, "h264");
    assert_eq!(info.audio_codec.as_deref(), Some("aac"));
    assert_eq!(info.file_size, 1_250_000);
    assert_eq!(info.bitrate, 1_000_000);
}

#[test]
fn info_lines_fixed_order() {
    let info = VideoInfo {
        duration_ms: 90_500,
        width: 1920,
        height: 1080,
        fps_milli: 29_970,
        video_codec: String::from("h264"),
        audio_codec: Some(String::from("aac")),
        file_size: 1_048_576,
        bitrate: 1_000_000,
    };
    let lines = info_lines("clip.mov", &info);
    assert_eq!(
        lines,
        [
            "clip.mov",
            "─────────────────────────",
            "Duration    : 1:30.50",
            "Resolution  : 1920x1080",
            "FPS         : 30",
            "Codec       : H264 / AAC",
            "File size   : 1.0 MB",
            "Bitrate     : 1.0 Mbps",
        ]
    );
}
