use vstd::prelude::*;

verus! {

/// Text in one of the supported languages.
#[derive(Debug, PartialEq, Eq)]
pub enum Lang {
    English(String),
    Chinese(String),
    Spanish(String),
    Japanese(String),
    Korean(String),
    German(String),
    French(String),
    Portuguese(String),
}

/// One sense of a word: its definitions and its example sentence pairs.
#[derive(Debug, PartialEq, Eq)]
pub struct Item {
    pub meaning: Vec<Lang>,
    pub examples: Vec<Vec<Lang>>,
}

/// A part of speech with the senses it carries.
#[derive(Debug, PartialEq, Eq)]
pub struct Meaning {
    pub pos: String,
    pub meanings: Vec<Item>,
}

pub type Meanings = Vec<Meaning>;

/// The full dictionary result for one query.
#[derive(Debug, PartialEq, Eq)]
pub struct Entry {
    pub query: String,
    pub meanings: Meanings,
}

/// `l` is English text equal to `text`.
pub open spec fn is_english_text(l: Lang, text: Seq<char>) -> bool {
    l matches Lang::English(s) && s@ == text
}

/// One of the item's definitions is English text equal to `text`.
pub open spec fn has_english_sense(item: Item, text: Seq<char>) -> bool {
    exists|k: int| 0 <= k < item.meaning@.len() && is_english_text(#[trigger] item.meaning@[k], text)
}

/// The sense at `(i, j)` exists and carries the English definition `text`.
pub open spec fn sense_matches(e: Entry, i: int, j: int, text: Seq<char>) -> bool {
    &&& 0 <= i < e.meanings@.len()
    &&& 0 <= j < e.meanings@[i].meanings@.len()
    &&& has_english_sense(e.meanings@[i].meanings@[j], text)
}

/// `(i1, j1)` comes before `(i2, j2)` when parts of speech are scanned in
/// order, and the senses of each in order.
pub open spec fn scanned_before(i1: int, j1: int, i2: int, j2: int) -> bool {
    i1 < i2 || (i1 == i2 && j1 < j2)
}

/// `(i, j)` is the first sense, in scan order, whose English definition is `text`.
pub open spec fn is_first_match(e: Entry, i: int, j: int, text: Seq<char>) -> bool {
    &&& sense_matches(e, i, j, text)
    &&& forall|a: int, b: int| scanned_before(a, b, i, j) ==> !#[trigger] sense_matches(e, a, b, text)
}

/// `e2` is `e1` with `extra` appended to the examples of the sense at `(i, j)`,
/// everything else unchanged.
pub open spec fn examples_appended(e1: Entry, e2: Entry, i: int, j: int, extra: Seq<Vec<Lang>>) -> bool {
    &&& e2.query == e1.query
    &&& e2.meanings@.len() == e1.meanings@.len()
    &&& forall|a: int| 0 <= a < e1.meanings@.len() && a != i ==> #[trigger] e2.meanings@[a] == e1.meanings@[a]
    &&& e2.meanings@[i].pos == e1.meanings@[i].pos
    &&& e2.meanings@[i].meanings@.len() == e1.meanings@[i].meanings@.len()
    &&& forall|b: int| 0 <= b < e1.meanings@[i].meanings@.len() && b != j
        ==> #[trigger] e2.meanings@[i].meanings@[b] == e1.meanings@[i].meanings@[b]
    &&& e2.meanings@[i].meanings@[j].meaning == e1.meanings@[i].meanings@[j].meaning
    &&& e2.meanings@[i].meanings@[j].examples@ == e1.meanings@[i].meanings@[j].examples@ + extra
}

impl Lang {
    /// The English text carried, if this is English.
    pub fn english_text(&self) -> (r: Option<&String>)
        ensures
            r matches Some(s) ==> *self == Lang::English(*s),
            r is None ==> !(self is English),
    {
        match self {
            Lang::English(s) => Some(s),
            _ => None,
        }
    }
}

impl Item {
    /// Whether one of the definitions is English text equal to `text`.
    pub fn has_english(&self, text: &str) -> (r: bool)
        ensures
            r == has_english_sense(*self, text@),
    {
        let mut k: usize = 0;
        while k < self.meaning.len()
            invariant
                k <= self.meaning@.len(),
                forall|x: int| 0 <= x < k ==> !is_english_text(#[trigger] self.meaning@[x], text@),
            decreases self.meaning@.len() - k,
        {
            if let Some(s) = self.meaning[k].english_text() {
                if crate::text::same_text(s.as_str(), text) {
                    return true;
                }
            }
            k = k + 1;
        }
        false
    }
}

impl Entry {
    /// The first sense, scanning parts of speech in order and the senses of
    /// each in order, whose English definition equals `text`.
    pub fn find_sense(&self, text: &str) -> (r: Option<(usize, usize)>)
        ensures
            r matches Some((i, j)) ==> is_first_match(*self, i as int, j as int, text@),
            r is None ==> forall|i: int, j: int| !#[trigger] sense_matches(*self, i, j, text@),
    {
        let mut i: usize = 0;
        while i < self.meanings.len()
            invariant
                i <= self.meanings@.len(),
                forall|a: int, b: int| a < i ==> !#[trigger] sense_matches(*self, a, b, text@),
            decreases self.meanings@.len() - i,
        {
            let senses = &self.meanings[i].meanings;
            let mut j: usize = 0;
            while j < senses.len()
                invariant
                    i < self.meanings@.len(),
                    *senses == self.meanings@[i as int].meanings,
                    j <= senses@.len(),
                    forall|a: int, b: int| a < i ==> !#[trigger] sense_matches(*self, a, b, text@),
                    forall|b: int| b < j ==> !#[trigger] sense_matches(*self, i as int, b, text@),
                decreases senses@.len() - j,
            {
                if senses[j].has_english(text) {
                    return Some((i, j));
                }
                j = j + 1;
            }
            i = i + 1;
        }
        None
    }

    /// Appends `extra` to the examples of the sense at `(i, j)`; existing
    /// examples are kept.
    pub fn append_examples(&mut self, i: usize, j: usize, extra: Vec<Vec<Lang>>)
        requires
            i < old(self).meanings@.len(),
            j < old(self).meanings@[i as int].meanings@.len(),
        ensures
            examples_appended(*old(self), *final(self), i as int, j as int, extra@),
    {
        let mut extra = extra;
        let ghost start = extra@;
        let ghost before = self.meanings@[i as int].meanings@[j as int].examples@;
        let examples = &mut self.meanings[i].meanings[j].examples;
        examples.append(&mut extra);
        assert(examples@ == before + start);
    }
}

} // verus!
