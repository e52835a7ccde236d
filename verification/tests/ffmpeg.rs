use subtitle_translator::ffmpeg::{partial_probe_args, probe_args};
use subtitle_translator::ffmpeg::{
    command_line, exe_name, extract_args, failure_message, kept_streams, lenient_extract_args,
    lenient_output_path, remux_drop_args, remux_translated_args, Stream,
};

fn stream(index: i64, lang: &str) -> Stream {
    Stream {
        index,
        codec_name: "subrip".into(),
        codec_type: "subtitle".into(),
        disposition: vec![("default".to_string(), 1)],
        tags: vec![("language".to_string(), lang.to_string())],
    }
}

fn strs(v: &[&str]) -> Vec<String> {
    v.iter().map(|s| s.to_string()).collect()
}

#[test]
fn stream_accessors() {
    let mut s = stream(2, "eng");
    assert_eq!(s.language(), "eng");
    assert_eq!(s.title(), "");
    assert!(s.disposition_flag("default"));
    assert!(!s.disposition_flag("forced"));
    s.tags.push(("title".to_string(), "SDH".to_string()));
    assert_eq!(s.title(), "SDH");
}

#[test]
fn extraction_command_lines() {
    assert_eq!(
        extract_args("in.mkv", 3, "out.srt"),
        strs(&["-y", "-i", "in.mkv", "-map", "0:3", "-c:s", "srt", "out.srt"])
    );
    assert_eq!(
        lenient_extract_args("in.mkv", 3, "o.srt"),
        strs(&["-y", "-err_detect", "ignore_err", "-fflags", "+genpts+igndts", "-i", "in.mkv", "-map", "0:3", "-c:s", "srt", "o.srt"])
    );
    assert_eq!(lenient_output_path("/m/a.mkv", 4, None), "/m/a.live.stream4.srt");
    assert_eq!(lenient_output_path("/m/a.mkv", 4, Some("/t/x.srt")), "/t/x.srt");
}

#[test]
fn remux_command_lines() {
    let streams = vec![stream(2, "eng"), stream(3, "ger"), stream(4, "fre")];
    assert_eq!(kept_streams(&streams, &[3]), vec![2, 4]);
    assert_eq!(
        remux_drop_args("a.mkv", &streams, &[3], "b.mkv"),
        strs(&["-y", "-i", "a.mkv", "-map", "0:v?", "-map", "0:a?", "-map", "0:t?", "-map", "0:d?", "-map", "0:2", "-map", "0:4", "-c", "copy", "-max_interleave_delta", "0", "b.mkv"])
    );
    assert_eq!(
        remux_translated_args("a.mkv", "t.srt", &streams, &[], "rus", "Translated [rus] (russian)", "b.mkv"),
        strs(&["-y", "-i", "a.mkv", "-f", "srt", "-i", "t.srt", "-map", "0", "-map", "1:0", "-c", "copy", "-max_interleave_delta", "0", "-c:s:3", "srt", "-metadata:s:s:3", "language=rus", "-metadata:s:s:3", "title=Translated [rus] (russian)", "b.mkv"])
    );
    assert_eq!(
        remux_translated_args("a.mkv", "t.srt", &streams, &[2, 4], "rus", "T", "b.mkv"),
        strs(&["-y", "-i", "a.mkv", "-f", "srt", "-i", "t.srt", "-map", "0:v?", "-map", "0:a?", "-map", "0:t?", "-map", "0:d?", "-map", "0:3", "-map", "1:0", "-c", "copy", "-max_interleave_delta", "0", "-c:s:1", "srt", "-metadata:s:s:1", "language=rus", "-metadata:s:s:1", "title=T", "b.mkv"])
    );
}

#[test]
fn logged_command_and_failures() {
    let args = strs(&["-i", "my file.mkv", "", "-y"]);
    assert_eq!(command_line("/usr/bin/ffmpeg", &args), "/usr/bin/ffmpeg -i 'my file.mkv' '' -y");
    assert_eq!(failure_message("  \n", "ffmpeg failed"), "ffmpeg failed");
    assert_eq!(failure_message(" bad input \n", "ffmpeg failed"), "bad input");
    assert_eq!(exe_name("ffmpeg", true), "ffmpeg.exe");
    assert_eq!(exe_name("ffmpeg", false), "ffmpeg");
}

#[test]
fn probe_argument_lists() {
    assert_eq!(
        probe_args("/m/a.mkv"),
        vec![
            "-v", "error", "-select_streams", "s", "-show_entries",
            "stream=index,codec_name,codec_type,disposition:stream_tags=language,title", "-of", "json", "/m/a.mkv",
        ]
    );
    assert_eq!(
        partial_probe_args("/m/a.mkv"),
        vec![
            "-v", "error", "-err_detect", "ignore_err", "-select_streams", "s", "-show_entries",
            "stream=index,codec_name,codec_type,disposition,bit_rate:stream_tags=language,title", "-of", "json",
            "/m/a.mkv",
        ]
    );
}
