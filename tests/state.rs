use broca::entry::{Entry, Item, Lang, Meaning};
use broca::error::BrocaError;
use broca::index::{Row, VocabIndex};
use broca::layout::{audio_file_name, entry_file_name, ignore_file_contents};
use broca::state::{Config, SpeechPlan, State, TargetLang};

fn configured(speech: bool) -> State {
    let (k, s) = if speech { (Some("key"), Some("secret")) } else { (None, None) };
    let config = Config::from_setup("/tmp/ws", "token", "Japanese", k, s).unwrap();
    let mut st = State::new();
    st.configure(config, VocabIndex::new());
    st
}

#[test]
fn unknown_language_is_rejected() {
    let r = Config::from_setup("/tmp/ws", "token", "Klingon", None, None);
    assert!(matches!(r, Err(BrocaError::ConfigInvalid(_))));
}

#[test]
fn setup_builds_config() {
    let c = Config::from_setup("/tmp/ws", "token", "French", Some("k"), Some("s")).unwrap();
    assert_eq!(c.workspace_path, "/tmp/ws");
    assert_eq!(c.openai_token, "token");
    assert_eq!(c.target_lang, TargetLang::French);
    let p = c.polly_config.unwrap();
    assert_eq!((p.aws_key.as_str(), p.aws_secret.as_str(), p.voice_id.as_str()), ("k", "s", "Olivia"));
    let c = Config::from_setup("/tmp/ws", "token", "French", Some("k"), None).unwrap();
    assert!(c.polly_config.is_none());
}

#[test]
fn language_names_round_trip() {
    for name in ["Chinese", "Spanish", "Japanese", "Korean", "German", "French", "Portuguese"] {
        assert_eq!(TargetLang::from_name(name).unwrap().name(), name);
    }
    assert_eq!(TargetLang::from_name("chinese"), None);
}

#[test]
fn operations_need_configuration() {
    let mut st = State::new();
    assert!(!st.is_configured());
    assert_eq!(st.load_word("a"), Err(BrocaError::NotConfigured));
    assert_eq!(st.query_words("a"), Err(BrocaError::NotConfigured));
    assert_eq!(st.fetch_all_words(), Err(BrocaError::NotConfigured));
    assert_eq!(st.load_usage(), Err(BrocaError::NotConfigured));
    assert_eq!(st.scan_vocabulary(&vec![]), Err(BrocaError::NotConfigured));
    assert_eq!(st.delete_word("a"), Err(BrocaError::NotConfigured));
    assert_eq!(st.say("a", true), Err(BrocaError::NotConfigured));
    assert_eq!(st.record_entry("a".into(), "c".into(), 1, 1, 1), Err(BrocaError::NotConfigured));
}

#[test]
fn two_lookups_accumulate_usage() {
    let mut st = configured(false);
    assert_eq!(st.load_usage(), Ok((0, 0)));
    assert_eq!(st.record_entry("whim".into(), "c1".into(), 10, 10, 20), Ok(true));
    assert_eq!(st.record_entry("other".into(), "c2".into(), 11, 5, 7), Ok(true));
    assert_eq!(st.load_usage(), Ok((15, 27)));
    assert_eq!(st.load_word("whim"), Ok("c1".to_string()));
    assert_eq!(st.fetch_all_words(), Ok(vec!["other".to_string(), "whim".to_string()]));
}

#[test]
fn stale_record_is_not_written_but_usage_counts() {
    let mut st = configured(false);
    st.record_entry("whim".into(), "new".into(), 20, 1, 1).unwrap();
    assert_eq!(st.record_entry("whim".into(), "old".into(), 10, 2, 3), Ok(false));
    assert_eq!(st.load_word("whim"), Ok("new".to_string()));
    assert_eq!(st.load_usage(), Ok((3, 4)));
}

#[test]
fn usage_overflow_changes_nothing() {
    let mut st = configured(false);
    st.record_entry("a".into(), "c".into(), 1, u64::MAX, 0).unwrap();
    assert!(matches!(st.record_entry("b".into(), "c".into(), 2, 1, 0), Err(BrocaError::IndexIO(_))));
    assert_eq!(st.load_word("b"), Err(BrocaError::NotFound));
}

#[test]
fn delete_then_lookup_is_not_found() {
    let mut st = configured(false);
    st.record_entry("Hello World".into(), "c".into(), 1, 0, 0).unwrap();
    assert_eq!(st.delete_word("Hello World"), Ok("hello_world.json".to_string()));
    assert_eq!(st.load_word("Hello World"), Err(BrocaError::NotFound));
    assert_eq!(st.query_words("hello"), Ok(vec![]));
}

#[test]
fn scan_vocabulary_lists_queries() {
    let mut st = configured(false);
    let files = vec![Row::new("a".into(), "1".into(), 3), Row::new("b".into(), "2".into(), 4)];
    assert_eq!(st.scan_vocabulary(&files), Ok(vec!["b".to_string(), "a".to_string()]));
    assert_eq!(st.scan_vocabulary(&files), Ok(vec!["b".to_string(), "a".to_string()]));
}

#[test]
fn speech_is_cached_by_file_name() {
    let st = configured(true);
    match st.say("hello", false) {
        Ok(SpeechPlan::Synthesize(job)) => {
            assert_eq!(job.file, "hello.mp3");
            assert_eq!(job.text, "hello");
            assert_eq!((job.aws_key.as_str(), job.voice_id.as_str()), ("key", "Olivia"));
        }
        other => panic!("unexpected {:?}", other),
    }
    assert_eq!(st.say("hello", true), Ok(SpeechPlan::Cached("hello.mp3".to_string())));
}

#[test]
fn speech_without_credentials() {
    let st = configured(false);
    assert_eq!(st.say("hello", false), Err(BrocaError::SpeechNotConfigured));
    assert_eq!(st.say("hello", true), Ok(SpeechPlan::Cached("hello.mp3".to_string())));
}

#[test]
fn file_names_are_slugs() {
    assert_eq!(entry_file_name("Hello, World!"), "hello_world.json");
    assert_eq!(audio_file_name("Take it easy"), "take_it_easy.mp3");
    assert_eq!(ignore_file_contents(), "cache.db");
}

#[test]
fn example_plan_targets_first_matching_sense() {
    let st = configured(false);
    let entry = Entry {
        query: "run".to_string(),
        meanings: vec![Meaning {
            pos: "verb".to_string(),
            meanings: vec![
                Item { meaning: vec![Lang::English("go".to_string())], examples: vec![] },
                Item { meaning: vec![Lang::English("operate".to_string())], examples: vec![] },
            ],
        }],
    };
    let (i, j, q) = st.plan_examples(&entry, "operate").unwrap().unwrap();
    assert_eq!((i, j), (0, 1));
    assert_eq!((q.query.as_str(), q.meaning.as_str()), ("run", "operate"));
    assert!(st.plan_examples(&entry, "fly").unwrap().is_none());
    assert!(matches!(State::new().plan_examples(&entry, "go"), Err(BrocaError::NotConfigured)));
}

#[test]
fn new_state_is_unconfigured_with_defaults() {
    let st = State::new();
    assert!(!st.is_configured());
    assert_eq!(st.workspace_path(), "");
    assert_eq!(st.openai_token(), "");
    assert_eq!(st.target_lang(), TargetLang::Chinese);
    assert_eq!(st.say("hello", false), Err(BrocaError::NotConfigured));
    assert_eq!(st.index().len(), 0);
}

#[test]
fn scan_keeps_fresher_rows_and_takes_newer_files() {
    let mut st = configured(false);
    st.record_entry("old".into(), "stored-old".into(), 5, 0, 0).unwrap();
    st.record_entry("new".into(), "stored-new".into(), 20, 0, 0).unwrap();
    let files = vec![
        Row::new("old".into(), "file-old".into(), 5),
        Row::new("new".into(), "file-new".into(), 10),
        Row::new("fresh".into(), "file-fresh".into(), 1),
    ];
    let listed = st.scan_vocabulary(&files).unwrap();
    assert_eq!(listed, vec!["new".to_string(), "old".to_string(), "fresh".to_string()]);
    assert_eq!(st.load_word("old"), Ok("file-old".to_string()));
    assert_eq!(st.load_word("new"), Ok("stored-new".to_string()));
    assert_eq!(st.load_word("fresh"), Ok("file-fresh".to_string()));
}
