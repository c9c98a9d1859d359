use perplex::caller::CallerState;
use perplex::result::AnalysisResult;
use perplex::worker::WorkerMessage;
use perplex::Settings;

#[test]
fn messages_drive_the_caller_state() {
    let mut state = CallerState::new();
    assert!(!state.is_loading_model && !state.is_analyzing);

    state.on_model_load_requested();
    assert!(state.is_loading_model);

    state.apply_message(WorkerMessage::ModelLoaded);
    assert!(!state.is_loading_model);

    state.on_analysis_requested();
    state.apply_message(WorkerMessage::Started);
    assert!(state.is_analyzing);
    assert_eq!(state.progress, Some((0, 0)));

    state.apply_message(WorkerMessage::Progress { current: 3, total: 10 });
    assert_eq!(state.progress, Some((3, 10)));

    state.apply_message(WorkerMessage::TokenCount(12));
    assert_eq!(state.token_count, Some(12));

    state.apply_message(WorkerMessage::Completed(AnalysisResult::new(vec![], 5)));
    assert!(!state.is_analyzing);
    assert!(state.progress.is_none());
    assert_eq!(state.analysis_result.as_ref().unwrap().processing_time_ms, 5);
    assert!(state.error_message.is_none());
}

#[test]
fn an_error_clears_the_busy_flags() {
    let mut state = CallerState::new();
    state.on_model_load_requested();
    state.on_analysis_requested();
    state.apply_message(WorkerMessage::Error("Failed to tokenize: broken".to_string()));
    assert!(!state.is_analyzing);
    assert!(!state.is_loading_model);
    assert!(state.progress.is_none());
    assert_eq!(
        state.error_message.as_deref(),
        Some("Failed to tokenize: broken")
    );
}

#[test]
fn a_new_analysis_clears_stale_errors() {
    let mut state = CallerState::new();
    state.apply_message(WorkerMessage::Error("old failure".to_string()));
    state.on_analysis_requested();
    assert!(state.error_message.is_none());
    assert!(state.is_analyzing);
    assert_eq!(state.progress, Some((0, 0)));
}

#[test]
fn analysis_needs_model_text_and_worker() {
    let state = CallerState::new();
    assert!(state.can_analyze(true, false, true));
    assert!(!state.can_analyze(false, false, true));
    assert!(!state.can_analyze(true, true, true));
    assert!(!state.can_analyze(true, false, false));

    let mut loading = CallerState::new();
    loading.on_model_load_requested();
    assert!(!loading.can_analyze(true, false, true));
}

#[test]
fn settings_start_without_a_model() {
    let settings = Settings::default();
    assert!(settings.model_path.is_none());
    assert!(!settings.has_model());

    let chosen = Settings { model_path: Some("/models/tiny.gguf".to_string()) };
    assert!(chosen.has_model());
}
