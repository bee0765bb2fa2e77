use vx::error::VxError;
use vx::utils::{
    default_output_path, format_bitrate, format_duration, format_size, is_affirmative,
    parse_time, path_extension, path_file_name,
};

#[test]
fn parse_time_bare_seconds() {
    assert_eq!(parse_time("90").unwrap(), 90_000);
    assert_eq!(parse_time("0").unwrap(), 0);
    assert_eq!(parse_time("90.5").unwrap(), 90_500);
    assert_eq!(parse_time("0.25").unwrap(), 250);
}

#[test]
fn parse_time_clock_shapes() {
    assert_eq!(parse_time("1:30").unwrap(), 90_000);
    assert_eq!(parse_time("0:02:05").unwrap(), 125_000);
    assert_eq!(parse_time("2:00:00").unwrap(), 7_200_000);
    assert_eq!(parse_time("1:30.5").unwrap(), 90_500);
    assert_eq!(parse_time("1.5:30").unwrap(), 120_000);
}

#[test]
fn parse_time_rejects_other_shapes() {
    for bad in ["", "abc", "1:2:3:4", ".", "1:xx", "-5", "1e3", " 90"] {
        match parse_time(bad) {
            Err(VxError::InvalidTime(t)) => assert_eq!(t, bad),
            _ => panic!("accepted {:?}", bad),
        }
    }
}

#[test]
fn format_size_boundaries() {
    assert_eq!(format_size(0), "0 B");
    assert_eq!(format_size(1023), "1023 B");
    assert_eq!(format_size(1024), "1.0 KB");
    assert_eq!(format_size(1536), "1.5 KB");
    assert_eq!(format_size(1048576), "1.0 MB");
    assert_eq!(format_size(1073741824), "1.0 GB");
}

#[test]
fn format_size_monotonic_samples() {
    assert_eq!(format_size(1025), "1.0 KB");
    assert_eq!(format_size(1075), "1.0 KB");
    assert_eq!(format_size(1076), "1.1 KB");
    assert_eq!(format_size(2048), "2.0 KB");
    assert_eq!(format_size(1048575), "1024.0 KB");
    assert_eq!(format_size(5242880), "5.0 MB");
    assert_eq!(format_size(1073741823), "1024.0 MB");
}

#[test]
fn format_bitrate_thresholds() {
    assert_eq!(format_bitrate(999), "999 bps");
    assert_eq!(format_bitrate(1000), "1.0 kbps");
    assert_eq!(format_bitrate(999999), "1000.0 kbps");
    assert_eq!(format_bitrate(1000000), "1.0 Mbps");
    assert_eq!(format_bitrate(2500000), "2.5 Mbps");
}

#[test]
fn format_duration_shapes() {
    assert_eq!(format_duration(0), "0:00.00");
    assert_eq!(format_duration(90_500), "1:30.50");
    assert_eq!(format_duration(3_661_230), "1:01:01.23");
    assert_eq!(format_duration(59_999), "0:59.99");
}

#[test]
fn default_output_path_compressed_suffix() {
    assert_eq!(
        default_output_path("clip.mov", Some("_compressed"), "mp4"),
        "clip_compressed.mp4"
    );
}

#[test]
fn default_output_path_shapes() {
    assert_eq!(default_output_path("dir/clip.mov", None, "gif"), "dir/clip.gif");
    assert_eq!(default_output_path("/a/b/c.tar.gz", None, "mp4"), "/a/b/c.tar.mp4");
    assert_eq!(default_output_path("noext", Some("_x"), "mp4"), "noext_x.mp4");
    assert_eq!(default_output_path(".bashrc", None, "mp4"), ".bashrc.mp4");
}

#[test]
fn path_helpers() {
    assert_eq!(path_file_name("a/b/c.mp4"), "c.mp4");
    assert_eq!(path_file_name("c.mp4"), "c.mp4");
    assert_eq!(path_extension("a/b.tar.gz").as_deref(), Some("gz"));
    assert_eq!(path_extension("noext"), None);
    assert_eq!(path_extension(".hidden"), None);
}

#[test]
fn affirmative_answers() {
    assert!(is_affirmative("y"));
    assert!(is_affirmative("Y"));
    assert!(is_affirmative(" yes \n"));
    assert!(is_affirmative("YES"));
    assert!(!is_affirmative("n"));
    assert!(!is_affirmative(""));
    assert!(!is_affirmative("oui"));
    assert!(!is_affirmative("y e s"));
}

#[test]
fn error_messages() {
    assert_eq!(
        VxError::InvalidTime(String::from("xx")).message(),
        "Invalid time format: \"xx\"\n  Expected format: seconds (30) or mm:ss (1:30)"
    );
    assert_eq!(VxError::Cancelled.message(), "Operation cancelled");
    assert_eq!(
        VxError::FfmpegError(String::from("boom")).message(),
        "ffmpeg error: boom"
    );
    assert_eq!(
        VxError::InputNotFound(String::from("a.mp4")).message(),
        "Input file not found: a.mp4"
    );
    let supported = vx::error::supported_formats();
    assert_eq!(
        VxError::UnsupportedFormat { format: String::from("flv"), supported }.message(),
        "Output format not supported: flv\n  Supported formats: mp4, webm, mov, avi, gif"
    );
    assert!(VxError::FfmpegNotFound.message().starts_with("ffmpeg not found"));
}
