use subtitle_translator::jobs::{batch_label, default_prompts, install_target, install_unsupported_message, job_target_language};
use subtitle_translator::services::{DEFAULT_SYSTEM_ROLE, DEFAULT_TEMPLATE};
use subtitle_translator::settings::AppSettings;

#[test]
fn job_defaults() {
    let p = default_prompts();
    assert_eq!(p.main_prompt_template, DEFAULT_TEMPLATE);
    assert_eq!(p.system_role, DEFAULT_SYSTEM_ROLE);
    let mut s = AppSettings::default();
    assert_eq!(job_target_language(&s), "ru");
    s.target_language = String::new();
    assert_eq!(job_target_language(&s), "ru");
    s.target_language = "th".into();
    assert_eq!(job_target_language(&s), "th");
}

#[test]
fn batch_and_install_texts() {
    assert_eq!(batch_label(0, 3, "/m/a.mkv"), "File 1/3: a.mkv");
    assert_eq!(install_target("ffmpeg-x/bin/ffmpeg.exe").as_deref(), Some("ffmpeg.exe"));
    assert_eq!(install_target("bin/ffprobe.exe").as_deref(), Some("ffprobe.exe"));
    assert_eq!(install_target("bin/ffplay.exe"), None);
    assert!(install_unsupported_message(true).contains("brew install ffmpeg"));
    assert!(install_unsupported_message(false).contains("sudo apt install ffmpeg"));
}
