use vstd::prelude::*;

use crate::entry::{is_first_match, sense_matches, Entry};
use crate::error::BrocaError;
use crate::index::{
    deleted, listing, lookup_spec, matching, rows_view, scanned, strings_view, upserted, IndexView,
    Row, RowView, VocabIndex,
};
use crate::layout::{audio_file_name, entry_file_name, slug_of};
use crate::openai::SentenceExampleQuery;
use crate::text::same_text;

verus! {

/// The languages a user can learn; English is always the other side.
#[derive(Debug, Clone, Copy, PartialEq, Eq, Structural)]
pub enum TargetLang {
    Chinese,
    Spanish,
    Japanese,
    Korean,
    German,
    French,
    Portuguese,
}

/// The English name of a target language.
pub open spec fn lang_name(l: TargetLang) -> Seq<char> {
    match l {
        TargetLang::Chinese => "Chinese"@,
        TargetLang::Spanish => "Spanish"@,
        TargetLang::Japanese => "Japanese"@,
        TargetLang::Korean => "Korean"@,
        TargetLang::German => "German"@,
        TargetLang::French => "French"@,
        TargetLang::Portuguese => "Portuguese"@,
    }
}

/// The target language with this exact English name, if any.
pub open spec fn lang_by_name(s: Seq<char>) -> Option<TargetLang> {
    if s == "Chinese"@ {
        Some(TargetLang::Chinese)
    } else if s == "Spanish"@ {
        Some(TargetLang::Spanish)
    } else if s == "Japanese"@ {
        Some(TargetLang::Japanese)
    } else if s == "Korean"@ {
        Some(TargetLang::Korean)
    } else if s == "German"@ {
        Some(TargetLang::German)
    } else if s == "French"@ {
        Some(TargetLang::French)
    } else if s == "Portuguese"@ {
        Some(TargetLang::Portuguese)
    } else {
        None
    }
}

impl TargetLang {
    /// The language's English name.
    pub fn name(&self) -> (r: &'static str)
        ensures
            r@ == lang_name(*self),
    {
        match self {
            TargetLang::Chinese => "Chinese",
            TargetLang::Spanish => "Spanish",
            TargetLang::Japanese => "Japanese",
            TargetLang::Korean => "Korean",
            TargetLang::German => "German",
            TargetLang::French => "French",
            TargetLang::Portuguese => "Portuguese",
        }
    }

    /// The language with this exact English name, if any.
    pub fn from_name(name: &str) -> (r: Option<TargetLang>)
        ensures
            r == lang_by_name(name@),
    {
        if same_text(name, "Chinese") {
            Some(TargetLang::Chinese)
        } else if same_text(name, "Spanish") {
            Some(TargetLang::Spanish)
        } else if same_text(name, "Japanese") {
            Some(TargetLang::Japanese)
        } else if same_text(name, "Korean") {
            Some(TargetLang::Korean)
        } else if same_text(name, "German") {
            Some(TargetLang::German)
        } else if same_text(name, "French") {
            Some(TargetLang::French)
        } else if same_text(name, "Portuguese") {
            Some(TargetLang::Portuguese)
        } else {
            None
        }
    }
}

/// The voice used for speech.
pub const DEFAULT_VOICE: &'static str = "Olivia";

/// Credentials and voice for the speech service.
#[derive(Debug, PartialEq, Eq)]
pub struct PollyConfig {
    pub aws_key: String,
    pub aws_secret: String,
    pub voice_id: String,
}

impl PollyConfig {
    /// A copy of the settings.
    pub fn duplicate(&self) -> (r: PollyConfig)
        ensures
            r == *self,
    {
        PollyConfig {
            aws_key: self.aws_key.clone(),
            aws_secret: self.aws_secret.clone(),
            voice_id: self.voice_id.clone(),
        }
    }
}

/// The persisted configuration.
#[derive(Debug, PartialEq, Eq)]
pub struct Config {
    pub workspace_path: String,
    pub openai_token: String,
    pub target_lang: TargetLang,
    pub polly_config: Option<PollyConfig>,
}

/// `c` is the configuration that setup makes of these inputs: speech
/// settings only when both speech credentials are given, with the default voice.
pub open spec fn is_setup_config(
    c: Config,
    workspace_path: Seq<char>,
    openai_token: Seq<char>,
    lang: TargetLang,
    aws_key: Option<&str>,
    aws_secret: Option<&str>,
) -> bool {
    &&& c.workspace_path@ == workspace_path
    &&& c.openai_token@ == openai_token
    &&& c.target_lang == lang
    &&& match (aws_key, aws_secret) {
        (Some(k), Some(s)) => c.polly_config matches Some(p) && p.aws_key@ == k@ && p.aws_secret@
            == s@ && p.voice_id@ == DEFAULT_VOICE@,
        _ => c.polly_config is None,
    }
}

impl Config {
    /// Validates the setup inputs and builds the configuration from them. An
    /// unknown language name is rejected before anything else happens.
    pub fn from_setup(
        workspace_path: &str,
        openai_token: &str,
        target_lang: &str,
        aws_key: Option<&str>,
        aws_secret: Option<&str>,
    ) -> (r: Result<Config, BrocaError>)
        ensures
            lang_by_name(target_lang@) is None ==> r matches Err(BrocaError::ConfigInvalid(_)),
            lang_by_name(target_lang@) matches Some(l) ==> r matches Ok(c) && is_setup_config(
                c,
                workspace_path@,
                openai_token@,
                l,
                aws_key,
                aws_secret,
            ),
    {
        let lang = match TargetLang::from_name(target_lang) {
            Some(l) => l,
            None => {
                return Err(BrocaError::ConfigInvalid(String::from_str("Unknown Target Language.")));
            },
        };
        let polly_config = match (aws_key, aws_secret) {
            (Some(k), Some(s)) => Some(
                PollyConfig {
                    aws_key: String::from_str(k),
                    aws_secret: String::from_str(s),
                    voice_id: String::from_str(DEFAULT_VOICE),
                },
            ),
            _ => None,
        };
        Ok(
            Config {
                workspace_path: String::from_str(workspace_path),
                openai_token: String::from_str(openai_token),
                target_lang: lang,
                polly_config,
            },
        )
    }
}

/// The orchestrator's state as values.
pub struct StateView {
    pub configured: bool,
    pub workspace_path: Seq<char>,
    pub openai_token: Seq<char>,
    pub target_lang: TargetLang,
    pub polly_config: Option<PollyConfig>,
    pub index: IndexView,
}

/// The single entry point: the configuration in memory and the vocabulary
/// index. Every data operation needs a configuration.
pub struct State {
    workspace_path: String,
    openai_token: String,
    target_lang: TargetLang,
    polly_config: Option<PollyConfig>,
    configured: bool,
    index: VocabIndex,
}

impl View for State {
    type V = StateView;

    closed spec fn view(&self) -> StateView {
        StateView {
            configured: self.configured,
            workspace_path: self.workspace_path@,
            openai_token: self.openai_token@,
            target_lang: self.target_lang,
            polly_config: self.polly_config,
            index: self.index@,
        }
    }
}

/// A speech request: the audio file to write and what to synthesize it with.
#[derive(Debug, PartialEq, Eq)]
pub struct SpeechJob {
    pub file: String,
    pub text: String,
    pub aws_key: String,
    pub aws_secret: String,
    pub voice_id: String,
}

/// What `say` asks of the caller: nothing but the cached file's name, or one
/// call of the speech service.
#[derive(Debug, PartialEq, Eq)]
pub enum SpeechPlan {
    Cached(String),
    Synthesize(SpeechJob),
}

/// The outcome of `say`, as values.
pub enum SpeechOutcome {
    NotConfigured,
    SpeechNotConfigured,
    Cached(Seq<char>),
    Synthesize(Seq<char>),
}

/// The audio file for `text`.
pub open spec fn speech_file(text: Seq<char>) -> Seq<char> {
    slug_of(text) + ".mp3"@
}

/// What `say` decides: the file is served when it already exists, whatever
/// the speech settings; otherwise it is synthesized once speech is configured.
pub open spec fn speech_outcome(s: StateView, text: Seq<char>, cached: bool) -> SpeechOutcome {
    if !s.configured {
        SpeechOutcome::NotConfigured
    } else if cached {
        SpeechOutcome::Cached(speech_file(text))
    } else if s.polly_config is None {
        SpeechOutcome::SpeechNotConfigured
    } else {
        SpeechOutcome::Synthesize(speech_file(text))
    }
}

pub open spec fn outcome_of(r: Result<SpeechPlan, BrocaError>) -> Option<SpeechOutcome> {
    match r {
        Ok(SpeechPlan::Cached(f)) => Some(SpeechOutcome::Cached(f@)),
        Ok(SpeechPlan::Synthesize(job)) => Some(SpeechOutcome::Synthesize(job.file@)),
        Err(BrocaError::NotConfigured) => Some(SpeechOutcome::NotConfigured),
        Err(BrocaError::SpeechNotConfigured) => Some(SpeechOutcome::SpeechNotConfigured),
        _ => None,
    }
}

/// Speaking a text twice: the first time, with speech configured and no
/// audio file yet, synthesizes into the text's file; the second time that
/// file exists and is served without calling the service, under the same name.
pub proof fn lemma_speech_cache_hit(s: StateView, text: Seq<char>)
    requires
        s.configured,
        s.polly_config is Some,
    ensures
        speech_outcome(s, text, false) == SpeechOutcome::Synthesize(speech_file(text)),
        speech_outcome(s, text, true) == SpeechOutcome::Cached(speech_file(text)),
{
}

impl State {
    pub closed spec fn wf(&self) -> bool {
        self.index.wf()
    }

    /// An unconfigured state with an empty index.
    pub fn new() -> (r: State)
        ensures
            r.wf(),
            !r@.configured,
            r@.workspace_path.len() == 0,
            r@.openai_token.len() == 0,
            r@.target_lang == TargetLang::Chinese,
            r@.polly_config is None,
            r@.index.rows.len() == 0,
            r@.index.prompt_tokens == 0,
            r@.index.completion_tokens == 0,
    {
        State {
            workspace_path: String::new(),
            openai_token: String::new(),
            target_lang: TargetLang::Chinese,
            polly_config: None,
            configured: false,
            index: VocabIndex::new(),
        }
    }

    /// Commits a configuration and the index read for its workspace.
    pub fn configure(&mut self, config: Config, index: VocabIndex)
        requires
            index.wf(),
        ensures
            final(self).wf(),
            final(self)@.configured,
            final(self)@.workspace_path == config.workspace_path@,
            final(self)@.openai_token == config.openai_token@,
            final(self)@.target_lang == config.target_lang,
            final(self)@.polly_config == config.polly_config,
            final(self)@.index == index@,
    {
        self.workspace_path = config.workspace_path;
        self.openai_token = config.openai_token;
        self.target_lang = config.target_lang;
        self.polly_config = config.polly_config;
        self.index = index;
        self.configured = true;
    }

    pub fn is_configured(&self) -> (r: bool)
        ensures
            r == self@.configured,
    {
        self.configured
    }

    pub fn workspace_path(&self) -> (r: &String)
        ensures
            r@ == self@.workspace_path,
    {
        &self.workspace_path
    }

    pub fn openai_token(&self) -> (r: &String)
        ensures
            r@ == self@.openai_token,
    {
        &self.openai_token
    }

    pub fn target_lang(&self) -> (r: TargetLang)
        ensures
            r == self@.target_lang,
    {
        self.target_lang
    }

    /// The vocabulary index.
    pub fn index(&self) -> (r: &VocabIndex)
        ensures
            r@ == self@.index,
            r.wf() == self.wf(),
    {
        &self.index
    }

    /// The stored content for exactly `query`.
    pub fn load_word(&self, query: &str) -> (r: Result<String, BrocaError>)
        requires
            self.wf(),
        ensures
            !self@.configured ==> r == Err::<String, BrocaError>(BrocaError::NotConfigured),
            self@.configured && lookup_spec(self@.index.rows, query@) is None ==> r == Err::<
                String,
                BrocaError,
            >(BrocaError::NotFound),
            self@.configured && lookup_spec(self@.index.rows, query@) is Some ==> (r matches Ok(c)
                && c@ == lookup_spec(self@.index.rows, query@)->0),
    {
        if !self.configured {
            return Err(BrocaError::NotConfigured);
        }
        match self.index.lookup(query) {
            Some(c) => Ok(c),
            None => Err(BrocaError::NotFound),
        }
    }

    /// The queries containing `query` up to ASCII case, most recently touched first.
    pub fn query_words(&self, query: &str) -> (r: Result<Vec<String>, BrocaError>)
        ensures
            !self@.configured ==> r == Err::<Vec<String>, BrocaError>(BrocaError::NotConfigured),
            self@.configured ==> (r matches Ok(v) && strings_view(v@) == listing(
                matching(self@.index.rows, query@),
            )),
    {
        if !self.configured {
            return Err(BrocaError::NotConfigured);
        }
        Ok(self.index.search(query))
    }

    /// All queries, most recently touched first.
    pub fn fetch_all_words(&self) -> (r: Result<Vec<String>, BrocaError>)
        ensures
            !self@.configured ==> r == Err::<Vec<String>, BrocaError>(BrocaError::NotConfigured),
            self@.configured ==> (r matches Ok(v) && strings_view(v@) == listing(self@.index.rows)),
    {
        if !self.configured {
            return Err(BrocaError::NotConfigured);
        }
        Ok(self.index.list_all())
    }

    /// The cumulative `(prompt, completion)` token usage.
    pub fn load_usage(&self) -> (r: Result<(u64, u64), BrocaError>)
        ensures
            !self@.configured ==> r == Err::<(u64, u64), BrocaError>(BrocaError::NotConfigured),
            self@.configured ==> r == Ok::<(u64, u64), BrocaError>(
                (self@.index.prompt_tokens, self@.index.completion_tokens),
            ),
    {
        if !self.configured {
            return Err(BrocaError::NotConfigured);
        }
        Ok(self.index.load_usage())
    }

    /// Reconciles the index with the entry files read from the workspace,
    /// each under the freshness rule, and lists all queries.
    pub fn scan_vocabulary(&mut self, files: &Vec<Row>) -> (r: Result<Vec<String>, BrocaError>)
        requires
            old(self).wf(),
        ensures
            final(self).wf(),
            !old(self)@.configured ==> r == Err::<Vec<String>, BrocaError>(BrocaError::NotConfigured)
                && final(self)@ == old(self)@,
            old(self)@.configured ==> (r matches Ok(v) && strings_view(v@) == listing(
                final(self)@.index.rows,
            )),
            old(self)@.configured ==> final(self)@ == (StateView {
                index: IndexView {
                    rows: scanned(old(self)@.index.rows, rows_view(files@)),
                    ..old(self)@.index
                },
                ..old(self)@
            }),
    {
        if !self.configured {
            return Err(BrocaError::NotConfigured);
        }
        Ok(self.index.scan(files))
    }

    /// Commits a fresh or augmented entry already written to its file: the
    /// index row under the freshness rule, and the tokens the completion
    /// service reported. Returns whether the row was written.
    pub fn record_entry(
        &mut self,
        query: String,
        content: String,
        timestamp: u64,
        prompt_tokens: u64,
        completion_tokens: u64,
    ) -> (r: Result<bool, BrocaError>)
        requires
            old(self).wf(),
        ensures
            final(self).wf(),
            !old(self)@.configured ==> r == Err::<bool, BrocaError>(BrocaError::NotConfigured)
                && final(self)@ == old(self)@,
            old(self)@.configured && !(old(self)@.index.prompt_tokens + prompt_tokens <= u64::MAX
                && old(self)@.index.completion_tokens + completion_tokens <= u64::MAX) ==> (r matches Err(
                BrocaError::IndexIO(_),
            ) && final(self)@ == old(self)@),
            old(self)@.configured && old(self)@.index.prompt_tokens + prompt_tokens <= u64::MAX
                && old(self)@.index.completion_tokens + completion_tokens <= u64::MAX ==> {
                let row = RowView { query: query@, content: content@, timestamp };
                &&& r == Ok::<bool, BrocaError>(!crate::index::is_stale(old(self)@.index.rows, row))
                &&& final(self)@ == (StateView {
                    index: IndexView {
                        rows: upserted(old(self)@.index.rows, row),
                        prompt_tokens: (old(self)@.index.prompt_tokens + prompt_tokens) as u64,
                        completion_tokens: (old(self)@.index.completion_tokens + completion_tokens) as u64,
                    },
                    ..old(self)@
                })
            },
    {
        if !self.configured {
            return Err(BrocaError::NotConfigured);
        }
        if !self.index.can_bump(prompt_tokens, completion_tokens) {
            return Err(BrocaError::IndexIO(String::from_str("token usage counter would overflow")));
        }
        let written = self.index.upsert(query, content, timestamp);
        self.index.bump_usage(prompt_tokens, completion_tokens);
        Ok(written)
    }

    /// Removes the index row for `query` (up to case) and names the entry
    /// file that goes with it.
    pub fn delete_word(&mut self, query: &str) -> (r: Result<String, BrocaError>)
        requires
            old(self).wf(),
        ensures
            final(self).wf(),
            !old(self)@.configured ==> r == Err::<String, BrocaError>(BrocaError::NotConfigured)
                && final(self)@ == old(self)@,
            old(self)@.configured ==> (r matches Ok(f) && f@ == slug_of(query@) + ".json"@),
            old(self)@.configured ==> final(self)@ == (StateView {
                index: IndexView { rows: deleted(old(self)@.index.rows, query@), ..old(self)@.index },
                ..old(self)@
            }),
    {
        if !self.configured {
            return Err(BrocaError::NotConfigured);
        }
        self.index.delete(query);
        Ok(entry_file_name(query))
    }

    /// Decides how to speak `text`, given whether its audio file exists.
    pub fn say(&self, text: &str, cached: bool) -> (r: Result<SpeechPlan, BrocaError>)
        ensures
            outcome_of(r) == Some(speech_outcome(self@, text@, cached)),
            r matches Ok(SpeechPlan::Synthesize(job)) ==> job.text@ == text@ && self@.polly_config is Some
                && job.aws_key == self@.polly_config->0.aws_key && job.aws_secret
                == self@.polly_config->0.aws_secret && job.voice_id == self@.polly_config->0.voice_id,
    {
        if !self.configured {
            return Err(BrocaError::NotConfigured);
        }
        let file = audio_file_name(text);
        if cached {
            return Ok(SpeechPlan::Cached(file));
        }
        match &self.polly_config {
            None => Err(BrocaError::SpeechNotConfigured),
            Some(p) => Ok(
                SpeechPlan::Synthesize(
                    SpeechJob {
                        file,
                        text: String::from_str(text),
                        aws_key: p.aws_key.clone(),
                        aws_secret: p.aws_secret.clone(),
                        voice_id: p.voice_id.clone(),
                    },
                ),
            ),
        }
    }

    /// Finds the sense of `entry` to ask more example sentences for: the
    /// first whose English definition is `meaning`. `None` when no sense
    /// matches, in which case nothing is to be asked.
    pub fn plan_examples(&self, entry: &Entry, meaning: &str) -> (r: Result<
        Option<(usize, usize, SentenceExampleQuery)>,
        BrocaError,
    >)
        ensures
            !self@.configured ==> r is Err && r->Err_0 == BrocaError::NotConfigured,
            self@.configured ==> r is Ok,
            r matches Ok(Some((i, j, q))) ==> is_first_match(*entry, i as int, j as int, meaning@)
                && q.query == entry.query && q.meaning@ == meaning@,
            r matches Ok(None) ==> forall|i: int, j: int| !#[trigger] sense_matches(*entry, i, j, meaning@),
    {
        if !self.configured {
            return Err(BrocaError::NotConfigured);
        }
        match entry.find_sense(meaning) {
            Some((i, j)) => Ok(
                Some(
                    (
                        i,
                        j,
                        SentenceExampleQuery {
                            query: entry.query.clone(),
                            meaning: String::from_str(meaning),
                        },
                    ),
                ),
            ),
            None => Ok(None),
        }
    }
}

} // verus!
