use lokb::chunker::SemanticChunker;
use lokb::config::{
    cache_dir, catalog_path, default_data_dir, derived_dir, fts_path, init_dir_list, join_path, models_dir,
    raw_dir, source_content_dir, sources_config_dir, vector_path,
};
use lokb::error::{storage_error, Error};
use lokb::html::html_to_markdown;
use lokb::llm::{create_backend, spec_parts, Backend, OllamaBackend, OpenAiCompatibleBackend, SkipBackend};
use lokb::parallel::{fts_prefix, process_article, rate, PipelineConfig, WriterState};
use lokb::pipeline::{documents_size, PipelineRun, RunAction, StepFallback, StepOutcome};
use lokb::sources::document_for_file;
use lokb::types::{privacy_filter, DataSourceClass, PrivacyLevel};
use lokb::wikilinks::extract_wikilinks;
use uuid::Uuid;

#[test]
fn pipeline_settings() {
    let c = PipelineConfig::from_settings(Some(0), None, 16);
    assert_eq!(c.threads, 1);
    assert_eq!(c.block_size, 20000);
    assert!(!c.large_source);
    assert!(c.extract_entities);
    assert_eq!(c.privacy_level, PrivacyLevel::Public);
    assert_eq!(PipelineConfig::from_settings(None, Some(5), 16).threads, 8);
    assert_eq!(PipelineConfig::from_settings(None, Some(5), 16).block_size, 5);
    assert_eq!(PipelineConfig::from_settings(None, None, 1).threads, 1);
    assert_eq!(PipelineConfig::from_settings(Some(6), None, 1).threads, 6);
    assert!(c.is_large(100_001));
    assert!(!c.is_large(100_000));
    assert!(c.extracts_entities(499_999));
    assert!(!c.extracts_entities(500_000));
    assert_eq!(rate(100, 0), 100);
    assert_eq!(rate(100, 3), 33);
}

#[test]
fn writer_samples_files_and_closes_blocks() {
    let mut w = WriterState::new(3, true);
    let decisions: Vec<(bool, bool)> = (0..7)
        .map(|_| {
            let d = w.on_article(1);
            (d.write_file, d.commit_block)
        })
        .collect();
    assert_eq!(
        decisions,
        vec![(true, false), (false, false), (false, true), (false, false), (false, false), (false, true), (false, false)]
    );
    assert_eq!(w.written(), 7);
    assert_eq!(w.blocks(), 2);
    let m = w.finish(10);
    assert_eq!((m.doc_count, m.entities_count, m.blocks, m.elapsed_secs), (7, 7, 3, 10));

    let mut small = WriterState::new(0, false);
    for _ in 0..5 {
        let d = small.on_article(0);
        assert!(d.write_file);
        assert!(!d.commit_block);
    }
    assert_eq!(small.blocks(), 0);
    let mut large = WriterState::new(1000, true);
    let written: usize = (0..250).filter(|_| large.on_article(0).write_file).count();
    assert_eq!(written, 3);
}

#[test]
fn indexed_prefix_of_large_articles() {
    assert_eq!(fts_prefix(&"a".repeat(2500)).len(), 2000);
    assert_eq!(fts_prefix("short"), "short");
    let accents = "é".repeat(1500);
    let p = fts_prefix(&accents);
    assert_eq!(p.chars().count(), 1000);
    assert_eq!(p.len(), 2000);
}

#[test]
fn articles_become_documents_chunks_and_links() {
    let html = "<h1>T</h1><p>See [[Paris]] and [[Paris]] in [[France]].</p>";
    let id = Uuid::now_v7();
    let chunker = SemanticChunker::default();
    let conv = htmd::convert(html).ok();
    let p = process_article("A/T", "Tee", html, conv.clone(), id, false, true, PrivacyLevel::Internal, &chunker).unwrap();
    let md = html_to_markdown(html, conv.clone());
    assert_eq!(p.markdown, md);
    assert_eq!(p.doc.external_id, "A/T");
    assert_eq!(p.doc.title, "Tee");
    assert_eq!(p.doc.source_id, id);
    assert_eq!(p.doc.privacy_level, PrivacyLevel::Internal);
    let expected = chunker.chunk(&p.doc, &md).unwrap();
    let got: Vec<&str> = p.chunks.iter().map(|c| c.text.as_str()).collect();
    let want: Vec<&str> = expected.iter().map(|c| c.text.as_str()).collect();
    assert_eq!(got, want);
    assert_eq!(p.wikilinks.entries(), extract_wikilinks(&md).entries());

    let no_links = process_article("A/T", "Tee", html, conv, id, false, false, PrivacyLevel::Public, &chunker).unwrap();
    assert!(no_links.wikilinks.is_empty());
    assert!(process_article("A/B", "Blank", "<p>  </p>", htmd::convert("<p>  </p>").ok(), id, false, true, PrivacyLevel::Public, &chunker).is_none());

    let long = format!("<p>{}</p>", "word ".repeat(1000));
    let big = process_article("A/L", "Long", &long, htmd::convert(&long).ok(), id, true, false, PrivacyLevel::Public, &chunker).unwrap();
    let total: usize = big.chunks.iter().map(|c| c.text.len()).sum();
    assert!(total <= 2000);
    assert!(big.markdown.len() > 2000);
}

#[test]
fn executor_records_steps_and_stops_without_data() {
    let mut run = PipelineRun::new();
    assert_eq!(
        run.record("parse", &StepFallback::Skip, StepOutcome::Succeeded { input_size: 10, output_size: 5, duration_ms: 1 }),
        RunAction::Continue
    );
    assert_eq!(run.record("off", &StepFallback::default(), StepOutcome::Disabled), RunAction::Continue);
    assert_eq!(
        run.record("fatal", &StepFallback::Abort, StepOutcome::Failed { input_size: 5, duration_ms: 2 }),
        RunAction::Abort
    );
    let result = run.finish(99).unwrap();
    let steps: Vec<(&str, u64, u64, u64, bool)> = result
        .steps
        .iter()
        .map(|s| (s.step_name.as_str(), s.input_size, s.output_size, s.duration_ms, s.skipped))
        .collect();
    assert_eq!(steps, vec![("parse", 10, 5, 1, false), ("off", 0, 0, 0, true)]);
    assert_eq!(result.total_duration_ms, 99);

    let mut failing = PipelineRun::new();
    let retry = StepFallback::Retry { max_attempts: 3, delay_ms: 10 };
    assert_eq!(failing.record("x", &retry, StepOutcome::Failed { input_size: 7, duration_ms: 2 }), RunAction::Stop);
    let err = failing.finish(1).unwrap_err();
    assert_eq!(err.message(), "pipeline error in step 'executor': pipeline produced no output (all steps failed)");

    let d = document_for_file("", "a.md", Uuid::nil(), "markdown-dir", "public");
    assert_eq!(documents_size(&[(d.clone(), "ab".to_string()), (d, "é".to_string())]), 4);
}

#[test]
fn language_model_backends() {
    assert!(matches!(create_backend("", None, None), Ok(Backend::Skip(SkipBackend))));
    assert!(matches!(create_backend("skip", None, None), Ok(Backend::Skip(_))));
    match create_backend("ollama", None, None) {
        Ok(Backend::Ollama(b)) => {
            assert_eq!(b.model, "phi3");
            assert_eq!(b.host, "http://localhost:11434");
            assert_eq!(b.generate_url(), "http://localhost:11434/api/generate");
            assert_eq!(b.name(), "ollama");
        }
        _ => panic!("expected an Ollama backend"),
    }
    match create_backend("ollama:llama3", Some("http://h:1"), None) {
        Ok(Backend::Ollama(b)) => assert_eq!((b.model.as_str(), b.host.as_str()), ("llama3", "http://h:1")),
        _ => panic!("expected an Ollama backend"),
    }
    match create_backend("openai:localhost:mymodel", None, Some("k".to_string())) {
        Ok(Backend::OpenAi(b)) => {
            assert_eq!(b.base_url, "localhost");
            assert_eq!(b.model, "mymodel");
            assert_eq!(b.api_key.as_deref(), Some("k"));
            assert_eq!(b.completions_url(), "localhost/v1/chat/completions");
            assert_eq!(b.name(), "openai_compatible");
        }
        _ => panic!("expected an OpenAI-compatible backend"),
    }
    match create_backend("openai:u", None, None) {
        Ok(Backend::OpenAi(b)) => assert_eq!(b.model, "gpt-3.5-turbo"),
        _ => panic!("expected an OpenAI-compatible backend"),
    }
    let no_url = create_backend("openai", None, None);
    assert!(matches!(&no_url, Err(Error::Storage(m)) if m == "openai spec requires url: openai:url:model"));
    let unknown = create_backend("foo:bar", None, None);
    assert!(
        matches!(&unknown, Err(Error::Storage(m)) if m == "unknown LLM backend: foo:bar. Use: skip, ollama:model, openai:url:model")
    );
    match create_backend("openai:u:m:k", None, Some("env".to_string())) {
        Ok(Backend::OpenAi(b)) => {
            assert_eq!(b.base_url, "u");
            assert_eq!(b.model, "m");
            assert_eq!(b.api_key.as_deref(), Some("k"));
        }
        _ => panic!("expected an OpenAI-compatible backend"),
    }
    assert_eq!(
        spec_parts("a:b:c:d"),
        ("a".to_string(), Some("b".to_string()), Some("c".to_string()), Some("d".to_string()))
    );
    assert_eq!(
        spec_parts("a:b:c:d:e"),
        ("a".to_string(), Some("b".to_string()), Some("c".to_string()), Some("d:e".to_string()))
    );
    assert_eq!(spec_parts("a"), ("a".to_string(), None, None, None));
    assert_eq!(SkipBackend.name(), "skip");
    assert_eq!(OllamaBackend::new("m", None).host, "http://localhost:11434");
    assert_eq!(OpenAiCompatibleBackend::new("u", "m", None).model, "m");
}

#[test]
fn data_directory_layout() {
    assert_eq!(join_path("", "x"), "x");
    assert_eq!(join_path("/a/", "b"), "/a/b");
    assert_eq!(join_path("/a", "b"), "/a/b");
    assert_eq!(default_data_dir(Some("/home/u")), "/home/u/.local/share/lokb");
    assert_eq!(default_data_dir(None), "./.local/share/lokb");
    assert_eq!(sources_config_dir("/d"), "/d/sources");
    assert_eq!(source_content_dir("/d"), "/d/source");
    assert_eq!(derived_dir("/d"), "/d/derived");
    assert_eq!(cache_dir("/d"), "/d/cache");
    assert_eq!(raw_dir("/d"), "/d/raw");
    assert_eq!(models_dir("/d/"), "/d/models");
    assert_eq!(init_dir_list("/d"), vec!["/d/sources", "/d/source", "/d/derived", "/d/cache", "/d/raw"]);
    assert_eq!(catalog_path("/d"), "/d/derived/catalog.sqlite");
    assert_eq!(fts_path("/d"), "/d/derived/fts");
    assert_eq!(vector_path("/d"), "/d/derived/vectors.json");
}

#[test]
fn privacy_and_classes() {
    assert_eq!(
        [PrivacyLevel::Public, PrivacyLevel::Internal, PrivacyLevel::Private, PrivacyLevel::Secret].map(|p| p.rank()),
        [0, 1, 2, 3]
    );
    assert_eq!(PrivacyLevel::default(), PrivacyLevel::Public);
    assert!(!privacy_filter(0, true, false));
    assert!(privacy_filter(2, true, false));
    assert!(!privacy_filter(1, false, true));
    assert!(privacy_filter(0, false, true));
    assert!(privacy_filter(3, false, false));
    let public = DataSourceClass::Public { license: None, web_url_template: None };
    let personal = DataSourceClass::Personal { owner: None, platform: None, contains_pii: true };
    assert!(public.is_public() && public.is_exportable() && !public.is_personal());
    assert!(personal.is_personal() && !personal.is_exportable());
    assert_eq!(public.label(), "public");
    assert_eq!(personal.label(), "personal");
}

#[test]
fn error_texts() {
    assert_eq!(storage_error("disk full").message(), "storage error: disk full");
    assert_eq!(Error::UnsupportedFormat("xls".to_string()).message(), "unsupported format: xls");
    assert_eq!(Error::BudgetExceeded("time".to_string()).message(), "budget exceeded: time");
    assert_eq!(
        Error::Pipeline { step: "s".to_string(), message: "m".to_string() }.message(),
        "pipeline error in step 's': m"
    );
    assert_eq!(Error::NotFound("nothing here".to_string()).message(), "nothing here");
}
