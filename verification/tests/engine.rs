use subtitle_translator::engine::retry_notice;
use subtitle_translator::engine::{
    apply_fix, assemble, best_effort_warning, cleanup_targets, collect_results, display_lang, group_result, judge, parse_payload,
    plan_groups, reason_message, retranslation, unfixed_line_warning, unresolved_warning, worker_count, ChatReply, Collected, GroupAction, GroupOutcome,
    GroupRun, GroupSpec, ParseKind, RetryReason, Temperature, Verdict,
};
use subtitle_translator::srt::{sort_and_reindex, Subtitle};

const THAI: &[(u32, u32)] = &[(0x0E01, 0x0E5B)];

fn sub(index: u32, start_ms: u64, end_ms: u64, content: &str) -> Subtitle {
    Subtitle { index, start_ms, end_ms, content: content.to_string() }
}

fn three_cues() -> Vec<Subtitle> {
    vec![sub(1, 0, 1000, "One"), sub(2, 1000, 2000, "Two"), sub(3, 2000, 3000, "Three")]
}

const T_SRT: &str = "1\n00:00:00,000 --> 00:00:01,000\nT-one\n\n2\n00:00:01,000 --> 00:00:02,000\nT-two\n\n3\n00:00:02,000 --> 00:00:03,000\nT-three\n";
const ENGLISH_SRT: &str = "1\n00:00:00,000 --> 00:00:01,000\nThis is the wrong language here\n\n2\n00:00:01,000 --> 00:00:02,000\nNothing was translated at all\n\n3\n00:00:02,000 --> 00:00:03,000\nStill completely in English text\n";
const THAI_SRT: &str = "1\n00:00:00,000 --> 00:00:01,000\nสวัสดีครับทุกคนวันนี้\n\n2\n00:00:01,000 --> 00:00:02,000\nบ้านหลังนี้มีปัญหา\n\n3\n00:00:02,000 --> 00:00:03,000\nกระจกบานนี้แปลกมาก\n";

/// Run one window to its end against a list of replies, the way the
/// application drives it; returns the outcome and the requests made.
fn run_window(window: &[Subtitle], expected: &[(u32, u32)], replies: &[&str]) -> (GroupOutcome, Vec<(u32, Temperature, u64)>) {
    let (mut run, mut action) = GroupRun::start();
    let mut requests = Vec::new();
    loop {
        match action {
            GroupAction::Request { attempt, temperature, backoff_ms, .. } => {
                requests.push((attempt, temperature, backoff_ms));
                let reply = replies[(attempt as usize).min(replies.len() - 1)];
                let verdict = judge(ChatReply::Reply(reply.to_string()), window, expected);
                let (r, a) = run.advance(verdict);
                run = r;
                action = a;
            },
            GroupAction::Done(outcome) => return (outcome, requests),
        }
    }
}

fn translate_all(entries: &[Subtitle], window: u32, overlap: u32, expected: &[(u32, u32)], replies: &[&str]) -> Result<Vec<Subtitle>, String> {
    translate_logged(entries, window, overlap, expected, replies, &mut Vec::new())
}

/// As `translate_all`, collecting the progress messages the application
/// would show.
fn translate_logged(
    entries: &[Subtitle],
    window: u32,
    overlap: u32,
    expected: &[(u32, u32)],
    replies: &[&str],
    log: &mut Vec<String>,
) -> Result<Vec<Subtitle>, String> {
    let groups = plan_groups(entries.len(), window, overlap);
    let mut results = Vec::new();
    for (i, g) in groups.iter().enumerate() {
        let w = &entries[g.trans_start..g.trans_end];
        let (outcome, _) = run_window(w, expected, replies);
        if let GroupOutcome::BestEffort(..) = &outcome {
            log.push(best_effort_warning(w[0].index, w[w.len() - 1].index, "Thai"));
        }
        results.push((i, group_result(outcome, w, "Thai")));
    }
    let payloads = match collect_results(groups.len(), results, false) {
        Collected::Payloads(p) => p,
        Collected::Failed(e) => return Err(e),
        Collected::Cancelled => return Ok(vec![]),
    };
    let table = assemble(entries, &groups, &payloads)?;
    Ok(sort_and_reindex(table))
}

#[test]
fn translate_subs_against_mock_api() {
    let out = translate_all(&three_cues(), 10, 0, &[], &[T_SRT]).expect("translate");
    assert_eq!(out.len(), 3);
    assert_eq!(out[0].start_ms, 0);
    assert_eq!(out[0].content, "T-one");
    assert_eq!(out[1].content, "T-two");
    assert_eq!(out[2].content, "T-three");
    assert_eq!(out[0].index, 1);
    assert_eq!(out[2].index, 3);
}

fn has_thai(s: &str) -> bool {
    s.chars().any(|c| ('\u{0E01}'..='\u{0E5B}').contains(&c))
}

#[test]
fn retry_recovers_wrong_language() {
    let out = translate_all(&three_cues(), 10, 0, THAI, &[ENGLISH_SRT, THAI_SRT]).expect("translate");
    assert_eq!(out.len(), 3);
    assert!(has_thai(&out[0].content), "expected Thai, got {:?}", out[0].content);
    assert!(!out[0].content.contains("English"));
    let (outcome, requests) = run_window(&three_cues(), THAI, &[ENGLISH_SRT, THAI_SRT]);
    match outcome {
        GroupOutcome::Accepted(ParseKind::Srt(texts), attempt) => {
            assert_eq!(attempt, 1);
            assert!(texts[0].contains("สวัสดี"));
        },
        other => panic!("unexpected outcome {:?}", other),
    }
    assert_eq!(requests, vec![(0, Temperature::Configured, 0), (1, Temperature::Escalated(1), 500)]);
}

/// Every reply is English: the window ends with the best attempt (which the
/// application reports with a warning) instead of failing.
#[test]
fn keep_best_and_warn_when_stuck() {
    let (outcome, requests) = run_window(&three_cues(), THAI, &[ENGLISH_SRT]);
    assert_eq!(requests.len(), 3);
    assert_eq!(requests[2], (2, Temperature::Escalated(2), 1000));
    match outcome {
        GroupOutcome::BestEffort(ParseKind::Srt(texts), attempt) => {
            assert_eq!(attempt, 0);
            assert!(texts[0].contains("wrong language"));
        },
        other => panic!("unexpected outcome {:?}", other),
    }
    let mut log = Vec::new();
    let out = translate_logged(&three_cues(), 10, 0, THAI, &[ENGLISH_SRT], &mut log).expect("best effort kept");
    assert_eq!(out.len(), 3);
    assert!(out[0].content.contains("wrong language"), "kept English best attempt");
    assert!(log.iter().any(|s| s.contains("[Warning]")), "expected a [Warning] to be emitted");
}

#[test]
fn warning_texts() {
    assert_eq!(
        retry_notice(1, 4, 9, &RetryReason::LineCount { got: 2, expected: 3 }, "Thai"),
        "[Retry 1/2] window 4-9: line count mismatch: got 2, expected 3 \u{2014} retrying"
    );
    assert_eq!(
        best_effort_warning(1, 3, "Thai"),
        "[Warning] window 1-3: still not fully in Thai after 3 attempts \u{2014} kept best attempt; per-line cleanup will follow"
    );
    assert_eq!(unfixed_line_warning(7, "Thai"), "[Warning] line 7 still not in Thai after a separate re-translation.");
    assert_eq!(unresolved_warning(&vec![4, 9]), "[Warning] 2 line(s) may still not be in the target language: [4, 9]");
    let many: Vec<u32> = (1..=25).collect();
    let shown: Vec<u32> = (1..=20).collect();
    assert_eq!(
        unresolved_warning(&many),
        format!("[Warning] 25 line(s) may still not be in the target language: {:?}", shown)
    );
    assert_eq!(unresolved_warning(&vec![]), "[Warning] 0 line(s) may still not be in the target language: []");
}

#[test]
fn empty_input_returns_empty() {
    assert!(plan_groups(0, 25, 10).is_empty());
    let out = translate_all(&[], 25, 10, &[], &[T_SRT]).unwrap();
    assert!(out.is_empty());
}

#[test]
fn plan_groups_overlap_windows() {
    let g = plan_groups(5, 2, 2);
    assert_eq!(
        g,
        vec![
            GroupSpec { task_id: 1, core_start: 0, core_end: 2, trans_start: 0, trans_end: 3 },
            GroupSpec { task_id: 2, core_start: 2, core_end: 4, trans_start: 1, trans_end: 5 },
            GroupSpec { task_id: 3, core_start: 4, core_end: 5, trans_start: 3, trans_end: 5 },
        ]
    );
    assert_eq!(plan_groups(3, 0, 0).len(), 3);
}

#[test]
fn workers_and_language_name() {
    assert_eq!(worker_count(0), 1);
    assert_eq!(worker_count(4), 4);
    assert_eq!(worker_count(64), 10);
    assert_eq!(display_lang("th", ""), "th");
    assert_eq!(display_lang("th", "Thai"), "Thai");
}

#[test]
fn payload_numbered_blocks_and_lines() {
    let group = vec![sub(12, 0, 1, "a"), sub(43, 1, 2, "b"), sub(50, 2, 3, "c")];
    match parse_payload("12:\nHola\n43:\nMundo\nmás\n", &group) {
        ParseKind::Mapped(v) => assert_eq!(v, vec!["Hola".to_string(), "Mundo\nmás\n".to_string(), String::new()]),
        other => panic!("{:?}", other),
    }
    match parse_payload("  uno \n\n dos\n", &group) {
        ParseKind::Mapped(v) => assert_eq!(v, vec!["uno".to_string(), "dos".to_string(), String::new()]),
        other => panic!("{:?}", other),
    }
    match parse_payload("a\nb\nc\nd", &group[..2]) {
        ParseKind::Mapped(v) => assert_eq!(v, vec!["a".to_string(), "b".to_string()]),
        other => panic!("{:?}", other),
    }
}

#[test]
fn judge_reports_miscount_and_failure() {
    match judge(ChatReply::Reply("1\n00:00:00,000 --> 00:00:01,000\nx\n".into()), &three_cues(), &[]) {
        Verdict::Miscounted { got, expected } => assert_eq!((got, expected), (1, 3)),
        other => panic!("{:?}", other),
    }
    match judge(ChatReply::Failed("timeout".into()), &three_cues(), &[]) {
        Verdict::Failed(e) => assert_eq!(e, "timeout"),
        other => panic!("{:?}", other),
    }
}

#[test]
fn failed_window_message_and_collection() {
    let w = three_cues();
    let err = group_result(GroupOutcome::Failed(Some(RetryReason::LineCount { got: 1, expected: 3 })), &w, "Thai");
    assert_eq!(err.unwrap_err(), "window 1-3 failed after 3 attempts: line count mismatch: got 1, expected 3");
    assert_eq!(reason_message(&RetryReason::WrongScript, "Thai"), "output not in Thai");
    assert_eq!(reason_message(&RetryReason::RequestFailed("boom".into()), "Thai"), "request failed: boom");
    let results = vec![
        (1usize, Ok(ParseKind::Mapped(vec![]))),
        (0usize, Err("window 1-3 failed after 3 attempts: x".to_string())),
        (2usize, Err("later".to_string())),
    ];
    match collect_results(3, results, false) {
        Collected::Failed(m) => assert_eq!(m, "Group 1 failed: window 1-3 failed after 3 attempts: x"),
        other => panic!("{:?}", other),
    }
    match collect_results(1, vec![(0, Err("cancelled".to_string()))], false) {
        Collected::Cancelled => {},
        other => panic!("{:?}", other),
    }
    match collect_results(1, vec![(0, Ok(ParseKind::Mapped(vec![])))], true) {
        Collected::Cancelled => {},
        other => panic!("{:?}", other),
    }
}

#[test]
fn assemble_detects_drift_and_gaps() {
    let entries = three_cues();
    let groups = plan_groups(3, 10, 0);
    let short = vec![Some(ParseKind::Mapped(vec!["a".to_string()]))];
    assert_eq!(
        assemble(&entries, &groups, &short).unwrap_err(),
        "Line count mismatch in translated window 1-3: got 1, expected 3. Aborting batch to avoid subtitle drift."
    );
    let none: Vec<Option<ParseKind>> = vec![None];
    assert_eq!(assemble(&entries, &groups, &none).unwrap_err(), "Missing translated entries for indices: [1, 2, 3]");
}

#[test]
fn assemble_uses_core_of_each_window_and_sanitizes() {
    let entries = vec![sub(1, 0, 10, "a"), sub(2, 10, 20, "b"), sub(3, 20, 30, "c")];
    let groups = plan_groups(3, 2, 2);
    let payloads = vec![
        Some(ParseKind::Mapped(vec!["A".to_string(), "7\nB1".to_string(), "C1".to_string()])),
        Some(ParseKind::Mapped(vec!["B2".to_string(), "00:00:01,000 --> 00:00:02,000\nC2".to_string()])),
    ];
    let table = assemble(&entries, &groups, &payloads).unwrap();
    let texts: Vec<&str> = table.iter().map(|s| s.content.as_str()).collect();
    assert_eq!(texts, vec!["A", "B1", "C2"]);
    assert_eq!(table[2].start_ms, 20);
}

#[test]
fn cleanup_retranslates_suspect_lines() {
    let entries = three_cues();
    let mut table = vec![sub(1, 0, 1000, "สวัสดี"), sub(2, 1000, 2000, "What else?"), sub(3, 2000, 3000, "กระจก")];
    let targets = cleanup_targets(&entries, &table, THAI);
    assert_eq!(targets.len(), 1);
    assert_eq!(targets[0].index, 2);
    assert_eq!(targets[0].content, "Two");
    assert!(cleanup_targets(&entries, &table, &[]).is_empty());
    assert_eq!(retranslation("2:\nStill English here", &targets[0], THAI), None);
    assert_eq!(retranslation("   ", &targets[0], THAI), None);
    let fixed = retranslation("2\n00:00:01,000 --> 00:00:02,000\nอะไรอีก?\n", &targets[0], THAI).unwrap();
    assert_eq!(fixed, "อะไรอีก?");
    apply_fix(&mut table, 2, fixed);
    assert_eq!(table[1].content, "อะไรอีก?");
    apply_fix(&mut table, 9, "x".to_string());
    assert_eq!(table.len(), 3);
}

#[test]
fn assembled_texts_are_clean() {
    const LEAKY: &str = "1\n00:00:00,000 --> 00:00:01,000\n7\nT-one\n\n2\n00:00:01,000 --> 00:00:02,000\nT-two\n00:00:05,000 --> 00:00:06,000\n\n3\n00:00:02,000 --> 00:00:03,000\nT-three\n";
    let out = translate_all(&three_cues(), 10, 0, &[], &[LEAKY]).expect("translate");
    assert_eq!(out.len(), 3);
    for c in &out {
        assert_eq!(subtitle_translator::srt::sanitize_content(&c.content), c.content);
    }
    assert_eq!(out[0].content, "T-one");
    assert_eq!(out[1].content, "T-two");
}
