use vstd::prelude::*;

verus! {

/// Directory under the workspace root holding one entry file per query.
pub const VOCABULARY_DIR: &'static str = "vocabulary";

/// Directory under the workspace root holding cached audio.
pub const AUDIO_DIR: &'static str = "audio";

/// File at the workspace root holding the index store.
pub const INDEX_FILE: &'static str = "cache.db";

/// File at the workspace root that keeps the index store out of version control.
pub const IGNORE_FILE: &'static str = ".gitignore";

/// Name of the configuration file in the platform's configuration directory.
pub const CONFIG_FILE: &'static str = "broca.conf.json";

/// What slugify makes of a text with `_` as separator, no stop words and no
/// length limit.
pub uninterp spec fn slug_of(s: Seq<char>) -> Seq<char>;

/// A character that may stand in a slug: a lower-case ASCII letter, a digit
/// or the separator `_`.
pub open spec fn is_slug_char(c: char) -> bool {
    ('a' <= c && c <= 'z') || ('0' <= c && c <= '9') || c == '_'
}

/// Relies on slugify::slugify(s, "", "_", None): the text transliterated,
/// lower-cased, with each run of other characters collapsed to one `_`; the
/// result is built only from `a`..`z`, `0`..`9` and the separator.
#[verifier::external_body]
fn slug(s: &str) -> (r: String)
    ensures
        r@ == slug_of(s@),
        forall|i: int| 0 <= i < r@.len() ==> is_slug_char(#[trigger] r@[i]),
{
    slugify::slugify(s, "", "_", None)
}

/// The name, under the vocabulary directory, of the entry file for `query`.
pub fn entry_file_name(query: &str) -> (r: String)
    ensures
        r@ == slug_of(query@) + ".json"@,
{
    let mut r = slug(query);
    r.append(".json");
    r
}

/// The name, under the audio directory, of the cached audio for `text`.
pub fn audio_file_name(text: &str) -> (r: String)
    ensures
        r@ == slug_of(text@) + ".mp3"@,
{
    let mut r = slug(text);
    r.append(".mp3");
    r
}

/// The contents of the ignore file: the index store's file name.
pub fn ignore_file_contents() -> (r: String)
    ensures
        r@ == INDEX_FILE@,
{
    String::from_str(INDEX_FILE)
}

} // verus!
