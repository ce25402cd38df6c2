use mv_engine::embedding::{
    default_local_model_if_needed, local_embedding_selection, plan_embedding_provider, ApiKeySource,
    EmbedderPlan, EmbeddingConfig, EmbeddingStep,
};
use mv_engine::relay_reply::{
    choose_suggestion, contact_allows_reply, fallback_reply, reply_action, reply_prompt, reply_subject,
    should_look_up_sender, AutonomyDecision, ReplyAction, TrustLevel,
};

fn cfg(provider: &str, model: &str, base_url: Option<&str>) -> EmbeddingConfig {
    EmbeddingConfig {
        provider: provider.to_string(),
        model: model.to_string(),
        dimensions: 1536,
        base_url: base_url.map(|s| s.to_string()),
    }
}

fn selected(step: EmbeddingStep) -> mv_engine::embedding::EmbeddingSelection {
    match step {
        EmbeddingStep::Selected(s) => s,
        EmbeddingStep::TryLocal { .. } => panic!("expected a finished selection"),
    }
}

#[test]
fn openai_without_key_falls_back_to_noop() {
    let s = selected(plan_embedding_provider(&cfg(" OpenAI ", "text-embedding-3-small", None), false, false));
    assert!(matches!(s.plan, EmbedderPlan::Disabled));
    assert_eq!(s.status.effective_provider, "noop");
    assert_eq!(s.status.effective_model, "noop");
    assert!(s.status.fallback_to_noop);
    assert_eq!(s.status.reason.as_deref(), Some("OPENAI_API_KEY not found in any credential backend"));
    assert_eq!(s.status.configured_provider, " OpenAI ");
    assert_eq!(s.vector_dimensions, 1536);
}

#[test]
fn openai_with_custom_host_needs_no_key() {
    let s = selected(plan_embedding_provider(&cfg("openai", "m", Some("http://proxy.local/v1")), false, false));
    match s.plan {
        EmbedderPlan::OpenAiCompatible { base_url, api_key, model, dimensions } => {
            assert_eq!(base_url, "http://proxy.local/v1");
            assert_eq!(api_key, ApiKeySource::OpenAi);
            assert_eq!(model, "m");
            assert_eq!(dimensions, 1536);
        }
        _ => panic!("expected an OpenAI embedder"),
    }
    assert_eq!(s.status.effective_provider, "openai");
    assert!(!s.status.fallback_to_noop);
}

#[test]
fn compatible_provider_defaults_to_localhost() {
    let s = selected(plan_embedding_provider(&cfg("openai_compatible", "m", None), false, false));
    match s.plan {
        EmbedderPlan::OpenAiCompatible { base_url, api_key, .. } => {
            assert_eq!(base_url, "http://localhost:8080/v1");
            assert_eq!(api_key, ApiKeySource::EmbeddingThenOpenAi);
        }
        _ => panic!("expected an OpenAI-compatible embedder"),
    }
    assert_eq!(s.status.effective_provider, "openai-compatible");
}

#[test]
fn ollama_remaps_openai_model_names() {
    let s = selected(plan_embedding_provider(&cfg("ollama", "text-embedding-3-small", None), true, false));
    match &s.plan {
        EmbedderPlan::Ollama { base_url, model, .. } => {
            assert_eq!(base_url, "http://localhost:11434/v1");
            assert_eq!(model, "nomic-embed-text");
        }
        _ => panic!("expected an Ollama embedder"),
    }
    assert_eq!(
        s.status.reason.as_deref(),
        Some("model 'text-embedding-3-small' auto-mapped to 'nomic-embed-text' for ollama")
    );
    let t = selected(plan_embedding_provider(&cfg("ollama", "mxbai", None), true, false));
    assert!(t.status.reason.is_none());
}

#[test]
fn noop_and_unknown_providers() {
    let s = selected(plan_embedding_provider(&cfg("disabled", "m", None), true, true));
    assert!(!s.status.fallback_to_noop);
    assert!(s.status.local_embeddings_feature_enabled);
    let u = selected(plan_embedding_provider(&cfg("Mystery", "m", None), true, false));
    assert!(u.status.fallback_to_noop);
    assert_eq!(u.status.reason.as_deref(), Some("unknown embedding provider 'mystery'"));
}

#[test]
fn local_provider_tries_the_local_model() {
    match plan_embedding_provider(&cfg("fastembed", "text-embedding-3-small", None), false, false) {
        EmbeddingStep::TryLocal { model } => assert_eq!(model, "bge-small-en-v1.5"),
        _ => panic!("expected a local attempt"),
    }
    let c = cfg("local", "text-embedding-3-small", None);
    let ok = local_embedding_selection(&c, "bge-small-en-v1.5", Ok(384), false);
    assert_eq!(ok.vector_dimensions, 384);
    assert_eq!(ok.status.effective_provider, "local_fastembed");
    assert_eq!(
        ok.status.reason.as_deref(),
        Some("model 'text-embedding-3-small' auto-mapped to 'bge-small-en-v1.5' for local_fastembed")
    );
    let err = local_embedding_selection(&c, "bge-small-en-v1.5", Err("boom".to_string()), false);
    assert!(matches!(err.plan, EmbedderPlan::Disabled));
    assert_eq!(err.vector_dimensions, 1536);
    assert_eq!(err.status.reason.as_deref(), Some("local_fastembed initialization failed: boom"));
}

#[test]
fn default_local_model_keeps_non_openai_names() {
    assert_eq!(default_local_model_if_needed("text-embedding-ada-002"), "bge-small-en-v1.5");
    assert_eq!(default_local_model_if_needed("all-MiniLM-L6-v2"), "all-MiniLM-L6-v2");
}

#[test]
fn relay_reply_gates() {
    assert!(should_look_up_sender(false, true));
    assert!(!should_look_up_sender(true, true));
    assert!(!should_look_up_sender(false, false));
    assert!(contact_allows_reply(TrustLevel::Full, true, "hello"));
    assert!(!contact_allows_reply(TrustLevel::RelayOnly, true, "hello"));
    assert!(!contact_allows_reply(TrustLevel::ContextInject, false, "hello"));
    assert!(!contact_allows_reply(TrustLevel::ContextInject, true, "  \n "));
}

#[test]
fn relay_reply_subject_and_prompt() {
    assert_eq!(reply_subject(Some("  Lunch ")), Some("Re: Lunch".to_string()));
    assert_eq!(reply_subject(Some("RE: Lunch")), Some("RE: Lunch".to_string()));
    assert_eq!(reply_subject(Some("   ")), None);
    assert_eq!(reply_subject(None), None);
    assert_eq!(reply_prompt(&Some("Re: X".to_string()), "body"), "Subject: Re: X\n\nbody");
    assert_eq!(reply_prompt(&None, "body"), "body");
}

#[test]
fn relay_fallback_reply_shows_three_snippets() {
    let snippets: Vec<String> = vec!["a".into(), "b".into(), "c".into(), "d".into()];
    assert_eq!(
        fallback_reply(&snippets),
        "I have related notes that might help:\na\nb\nc\n\nWant me to share details?"
    );
    let (text, used) = choose_suggestion(Some(vec!["first".into(), "last".into()]), &snippets);
    assert_eq!(text, "last");
    assert!(used);
    let (text, used) = choose_suggestion(Some(vec![]), &vec!["only".to_string()]);
    assert_eq!(text, "I have related notes that might help:\nonly\n\nWant me to share details?");
    assert!(!used);
}

#[test]
fn relay_auto_reply_needs_full_trust() {
    assert_eq!(reply_action(TrustLevel::Full, AutonomyDecision::AutoApply), ReplyAction::Send);
    assert_eq!(reply_action(TrustLevel::ContextInject, AutonomyDecision::AutoApply), ReplyAction::Propose);
    assert_eq!(reply_action(TrustLevel::Full, AutonomyDecision::QueueForLater), ReplyAction::Propose);
    assert_eq!(reply_action(TrustLevel::Full, AutonomyDecision::Block), ReplyAction::Drop);
}
