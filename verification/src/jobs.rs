//! Job-level decisions shared by the batch, single-file and installer
//! commands.
use vstd::prelude::*;
use crate::text;
use crate::services;
use crate::settings::AppSettings;
use crate::orchestrate;

verus! {

broadcast use vstd::string::group_string_axioms;

/// The built-in prompt template and system role, for the "reset to default"
/// buttons.
#[derive(Debug)]
pub struct DefaultPrompts {
    pub main_prompt_template: String,
    pub system_role: String,
}

/// The built-in prompt template and system role.
pub fn default_prompts() -> (r: DefaultPrompts)
    ensures
        r.main_prompt_template@ == services::DEFAULT_TEMPLATE@,
        r.system_role@ == services::DEFAULT_SYSTEM_ROLE@,
{
    DefaultPrompts {
        main_prompt_template: text::string_from(services::DEFAULT_TEMPLATE),
        system_role: text::string_from(services::DEFAULT_SYSTEM_ROLE),
    }
}

/// What to do with one file of a batch: the stream to translate (if any) and
/// the streams to drop.
#[derive(Debug)]
pub struct FileDecision {
    pub file_path: String,
    pub translate_stream_index: Option<i64>,
    pub delete_stream_indexes: Vec<i64>,
}

/// The target language of a job: the configured one, or `ru` when unset.
pub fn job_target_language(settings: &AppSettings) -> (r: String)
    ensures
        r@ == if settings.target_language@.len() == 0 {
            "ru"@
        } else {
            settings.target_language@
        },
{
    if settings.target_language.as_str().is_empty() {
        text::string_from("ru")
    } else {
        settings.target_language.clone()
    }
}

/// The overall-progress label of file `i` (from 0) of a batch of `total`.
pub open spec fn batch_label_spec(i: nat, total: nat, file: Seq<char>) -> Seq<char> {
    "File "@ + text::decimal(i + 1) + "/"@ + text::decimal(if total == 0 {
        1
    } else {
        total
    }) + ": "@ + orchestrate::basename_spec(file)
}

/// The overall-progress label of a batch file.
pub fn batch_label(i: usize, total: usize, file: &str) -> (r: String)
    requires
        i < total,
    ensures
        r@ == batch_label_spec(i as nat, total as nat, file@),
{
    let mut out = text::chars_of("File ");
    text::extend(&mut out, &text::fmt_decimal(i as u64 + 1));
    text::extend(&mut out, &text::chars_of("/"));
    text::extend(&mut out, &text::fmt_decimal(total as u64));
    text::extend(&mut out, &text::chars_of(": "));
    text::extend(&mut out, &text::chars_of(orchestrate::basename(file).as_str()));
    text::string_of(&out)
}

/// The file an archive entry is installed as: `ffmpeg.exe` or `ffprobe.exe`
/// for entries whose name ends in one of those, else none.
pub fn install_target(entry_name: &str) -> (r: Option<String>)
    ensures
        r matches Some(t) ==> (t@ == "ffmpeg.exe"@ && "ffmpeg.exe"@.is_suffix_of(entry_name@)) || (t@
            == "ffprobe.exe"@ && !"ffmpeg.exe"@.is_suffix_of(entry_name@) && "ffprobe.exe"@.is_suffix_of(
            entry_name@,
        )),
        r is None ==> !"ffmpeg.exe"@.is_suffix_of(entry_name@) && !"ffprobe.exe"@.is_suffix_of(entry_name@),
{
    let n = text::chars_of(entry_name);
    if ends_with(&n, "ffmpeg.exe") {
        Some(text::string_from("ffmpeg.exe"))
    } else if ends_with(&n, "ffprobe.exe") {
        Some(text::string_from("ffprobe.exe"))
    } else {
        None
    }
}

/// `s` ends with `p`.
pub fn ends_with(s: &[char], p: &str) -> (r: bool)
    ensures
        r == p@.is_suffix_of(s@),
{
    let pv = text::chars_of(p);
    if pv.len() > s.len() {
        return false;
    }
    let k = s.len() - pv.len();
    let r = text::matches_at(s, &pv, k);
    proof {
        if p@.is_suffix_of(s@) {
            assert(s@.subrange(k as int, k + pv@.len()) =~= pv@) by {
                assert forall|i: int| 0 <= i < pv@.len() implies s@.subrange(k as int, k + pv@.len())[i] == pv@[i] by {
                    assert(s@[s@.len() - pv@.len() + i] == pv@[i]);
                }
            }
        }
        if r {
            assert forall|i: int| 0 <= i < pv@.len() implies s@[s@.len() - pv@.len() + i] == pv@[i] by {
                assert(s@.subrange(k as int, k + pv@.len())[i] == s@[k + i]);
            }
        }
    }
    r
}

/// Why ffmpeg cannot be installed automatically on this platform.
pub fn install_unsupported_message(macos: bool) -> (r: String)
    ensures
        r@ == if macos {
            "Auto-download is not supported on macOS.\nInstall ffmpeg via Homebrew:  brew install ffmpeg"@
        } else {
            "Auto-download is not supported on this platform.\nInstall ffmpeg with your package manager, e.g.:  sudo apt install ffmpeg"@
        },
{
    if macos {
        text::string_from("Auto-download is not supported on macOS.\nInstall ffmpeg via Homebrew:  brew install ffmpeg")
    } else {
        text::string_from(
            "Auto-download is not supported on this platform.\nInstall ffmpeg with your package manager, e.g.:  sudo apt install ffmpeg",
        )
    }
}

} // verus!
