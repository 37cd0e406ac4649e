use fig_lite::completion::{clean_completion, line_number_pattern_string, CompletionCleaner};
use fig_lite::inline::{
    backoff_millis, cached_insert_text, full_text, next_step, plan_completions,
    recommendation_request, request_buffer, start_request, CacheRank, LanguageName, RequestAction, RequestEvent, RequestPhase,
};
use fig_lite::prompt::{candidate, prompt, CommandInfo, FILE_CONTEXT_LEFT_FILE_CONTENT_MAX_LEN};
use fig_lite::settings::{debounce_millis_setting, history_count_setting, parse_unsigned_str};

fn entry(command: &str) -> CommandInfo {
    CommandInfo { command: Some(command.into()) }
}

#[test]
fn test_prompt() {
    let history = vec![
        CommandInfo { command: Some("echo world".into()) },
        CommandInfo { command: Some("echo hello".into()) },
    ];

    let prompt = prompt(&history, "echo ").unwrap();
    println!("{prompt}");

    assert_eq!(prompt, "    1  echo hello\n    2  echo world\n    3  echo ");
}

#[test]
fn test_clean_completion() {
    assert_eq!(clean_completion("echo hello"), "echo hello");
    assert_eq!(clean_completion("echo hello\necho world"), "echo hello");
    assert_eq!(clean_completion("echo hello   \necho world\n"), "echo hello");
    assert_eq!(clean_completion("echo hello     "), "echo hello");

    // Trim potential excess lines from the model
    assert_eq!(clean_completion("cd           50      ls"), "cd");
    assert_eq!(
        clean_completion("git add     50  git commit -m \"initial commit\""),
        "git add"
    );
    assert_eq!(clean_completion("cd           51      ls"), "cd");
    assert_eq!(
        clean_completion("git add     51  git commit -m \"initial commit\""),
        "git add"
    );
}

#[test]
fn too_long_prompt() {
    let history = vec![CommandInfo {
        command: Some("a".repeat(FILE_CONTEXT_LEFT_FILE_CONTENT_MAX_LEN + 1)),
    }];

    assert!(prompt(&history, "echo ").is_none());
}

#[test]
fn prompt_without_history_is_none() {
    let history: Vec<CommandInfo> = vec![];
    assert!(prompt(&history, "ls").is_none());
}

#[test]
fn prompt_skips_entries_without_command() {
    let history = vec![entry("git status"), CommandInfo { command: None }, entry("cd src")];
    assert_eq!(
        prompt(&history, "ls").unwrap(),
        "    1  cd src\n    2  git status\n    3  ls"
    );
}

#[test]
fn prompt_drops_oldest_end_when_too_long() {
    // The entry at the start of the slice is dropped first, since the
    // listing is built from the end of the slice.
    let long = "b".repeat(FILE_CONTEXT_LEFT_FILE_CONTENT_MAX_LEN);
    let history = vec![CommandInfo { command: Some(long) }, entry("echo hi")];
    assert_eq!(prompt(&history, "ls").unwrap(), "    1  echo hi\n    2  ls");
}

#[test]
fn prompt_limit_counts_utf8_bytes() {
    // 3 bytes per character: fewer characters than the limit, more bytes.
    let wide = "\u{20ac}".repeat(FILE_CONTEXT_LEFT_FILE_CONTENT_MAX_LEN / 3);
    let history = vec![CommandInfo { command: Some(wide) }];
    assert!(prompt(&history, "x").is_none());
}

#[test]
fn candidate_numbers_lines_right_aligned() {
    let history = vec![entry("b"), entry("a")];
    assert_eq!(candidate(&history, "c", 1), "    1  a\n    2  c");
    assert_eq!(candidate(&history, "c", 0), "    1  c");
}

#[test]
fn cleaner_uses_its_history_count() {
    let cleaner = CompletionCleaner::new(10).unwrap();
    assert_eq!(cleaner.clean("ls 11  pwd"), "ls");
    assert_eq!(cleaner.clean("ls 12\tpwd\nnext"), "ls");
    assert_eq!(cleaner.clean("ls 50  pwd"), "ls 50  pwd");
}

#[test]
fn cleaned_completion_is_one_line_without_trailing_space() {
    let out = clean_completion("  git push \t\nsecond line");
    assert_eq!(out, "  git push");
    assert!(!out.contains('\n'));
}

#[test]
fn line_number_pattern_text() {
    assert_eq!(line_number_pattern_string(50), "50\\s+.*");
    assert_eq!(line_number_pattern_string(7), "7\\s+.*");
}

#[test]
fn request_buffer_trims_start_only() {
    assert_eq!(request_buffer("  \t git st "), "git st ");
    assert_eq!(request_buffer("   "), "");
}

#[test]
fn cached_insert_strips_typed_part() {
    assert_eq!(cached_insert_text("git status", "git s"), "tatus");
    assert_eq!(cached_insert_text("ls -la", "cd"), "ls -la");
    assert_eq!(cached_insert_text("ls", "ls"), "");
}

#[test]
fn full_text_concatenates() {
    assert_eq!(full_text("git ", "push"), "git push");
}

#[test]
fn plan_offers_first_valid_completion() {
    let completions = vec!["push".to_string(), "".to_string(), "pull".to_string(), "fetch".to_string()];
    let valid = vec![true, true, true, false];
    let plan = plan_completions("git ", &completions, &valid);
    assert_eq!(plan.insert_text.as_deref(), Some("push"));
    let inserts: Vec<(String, bool)> = plan
        .cache_inserts
        .iter()
        .map(|e| (e.full_text.clone(), matches!(e.rank, CacheRank::Chosen)))
        .collect();
    assert_eq!(
        inserts,
        vec![("git pull".to_string(), false), ("git push".to_string(), true)]
    );
}

#[test]
fn plan_with_invalid_first_sends_nothing() {
    let completions = vec!["rm -rf".to_string(), "ls".to_string()];
    let valid = vec![false, true];
    let plan = plan_completions("", &completions, &valid);
    assert!(plan.insert_text.is_none());
    assert_eq!(plan.cache_inserts.len(), 1);
    assert_eq!(plan.cache_inserts[0].full_text, "ls");
    assert!(matches!(plan.cache_inserts[0].rank, CacheRank::Alternative));
}

#[test]
fn plan_with_empty_first_sends_it_without_caching() {
    let completions = vec!["".to_string()];
    let valid = vec![true];
    let plan = plan_completions("ls", &completions, &valid);
    assert_eq!(plan.insert_text.as_deref(), Some(""));
    assert!(plan.cache_inserts.is_empty());
}

#[test]
fn plan_without_completions() {
    let plan = plan_completions("ls", &vec![], &vec![]);
    assert!(plan.insert_text.is_none());
    assert!(plan.cache_inserts.is_empty());
}

#[test]
fn request_start() {
    assert!(matches!(start_request(false, true), (RequestPhase::Finished, RequestAction::Stop)));
    assert!(matches!(
        start_request(true, true),
        (RequestPhase::Finished, RequestAction::SendCachedCompletion)
    ));
    assert!(matches!(
        start_request(true, false),
        (RequestPhase::Connecting, RequestAction::Connect)
    ));
}

fn connected() -> RequestPhase {
    let (phase, _) = start_request(true, false);
    let (phase, action) = next_step(phase, RequestEvent::ClientConnected { ok: true });
    assert!(matches!(action, RequestAction::WaitDebounce));
    assert!(matches!(phase, RequestPhase::Debouncing { attempt: 0 }));
    phase
}

#[test]
fn request_without_client_stops() {
    let (phase, _) = start_request(true, false);
    let (phase, action) = next_step(phase, RequestEvent::ClientConnected { ok: false });
    assert!(matches!(phase, RequestPhase::Finished));
    assert!(matches!(action, RequestAction::Stop));
}

#[test]
fn recommendation_request_fields() {
    let r = recommendation_request("    1  ls".to_string());
    assert_eq!(r.left_file_content, "    1  ls");
    assert_eq!(r.right_file_content, "");
    assert_eq!(r.filename, "history.sh");
    assert!(matches!(r.language, LanguageName::Shell));
    assert_eq!(r.max_results, 1);
    assert!(r.next_token.is_none());
}

#[test]
fn request_superseded_sends_empty() {
    let phase = connected();
    let (phase, action) = next_step(phase, RequestEvent::DebounceElapsed { still_latest: false });
    assert!(matches!(phase, RequestPhase::Finished));
    assert!(matches!(action, RequestAction::SendEmptyCompletion));
}

#[test]
fn request_happy_path() {
    let phase = connected();
    let (phase, action) = next_step(phase, RequestEvent::DebounceElapsed { still_latest: true });
    assert!(matches!(action, RequestAction::BuildPrompt));
    let (phase, action) = next_step(phase, RequestEvent::PromptBuilt { has_prompt: true });
    assert!(matches!(action, RequestAction::RequestRecommendations));
    let (phase, action) = next_step(phase, RequestEvent::RecommendationsReceived { throttled: false });
    assert!(matches!(action, RequestAction::SendCompletion));
    assert!(matches!(phase, RequestPhase::Finished));
}

#[test]
fn request_without_prompt_stops() {
    let phase = connected();
    let (phase, _) = next_step(phase, RequestEvent::DebounceElapsed { still_latest: true });
    let (phase, action) = next_step(phase, RequestEvent::PromptBuilt { has_prompt: false });
    assert!(matches!(action, RequestAction::Stop));
    assert!(matches!(phase, RequestPhase::Finished));
}

#[test]
fn request_gives_up_after_three_throttled_attempts() {
    let mut phase = connected();
    let mut debounces = 1;
    loop {
        let (p, _) = next_step(phase, RequestEvent::DebounceElapsed { still_latest: true });
        let (p, _) = next_step(p, RequestEvent::PromptBuilt { has_prompt: true });
        let (p, a) = next_step(p, RequestEvent::RecommendationsReceived { throttled: true });
        assert!(matches!(a, RequestAction::WaitBackoff));
        let (p, a) = next_step(p, RequestEvent::BackoffElapsed);
        match a {
            RequestAction::WaitDebounce => {
                debounces += 1;
                phase = p;
            }
            RequestAction::Stop => {
                assert!(matches!(p, RequestPhase::Finished));
                break;
            }
            _ => panic!("unexpected action"),
        }
    }
    assert_eq!(debounces, 3);
}

#[test]
fn backoff_is_one_second_less_debounce() {
    assert_eq!(backoff_millis(300), 700);
    assert_eq!(backoff_millis(1000), 0);
    assert_eq!(backoff_millis(2500), 0);
    assert_eq!(backoff_millis(0), 1000);
}

#[test]
fn settings_parse_like_std() {
    assert_eq!(history_count_setting(None), 49);
    assert_eq!(history_count_setting(Some("12")), 12);
    assert_eq!(history_count_setting(Some("+7")), 7);
    assert_eq!(history_count_setting(Some("-1")), 49);
    assert_eq!(history_count_setting(Some("")), 49);
    assert_eq!(history_count_setting(Some("+")), 49);
    assert_eq!(history_count_setting(Some(" 5")), 49);
    assert_eq!(history_count_setting(Some("5x")), 49);
    assert_eq!(debounce_millis_setting(None), 300);
    assert_eq!(debounce_millis_setting(Some("150")), 150);
    assert_eq!(debounce_millis_setting(Some("18446744073709551615")), u64::MAX);
    assert_eq!(debounce_millis_setting(Some("18446744073709551616")), 300);
    assert_eq!(parse_unsigned_str("007", 10), Some(7));
    assert_eq!(parse_unsigned_str("11", 10), None);
    for s in ["0", "42", "+42", "-42", "", "+", "4 2", "99999999999999999999"] {
        assert_eq!(parse_unsigned_str(s, u64::MAX), s.parse::<u64>().ok());
    }
}
