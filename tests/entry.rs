use broca::entry::{Entry, Item, Lang, Meaning};

fn pair(en: &str, zh: &str) -> Vec<Lang> {
    vec![Lang::English(en.to_string()), Lang::Chinese(zh.to_string())]
}

fn item(en: &str, examples: usize) -> Item {
    Item {
        meaning: pair(en, "义"),
        examples: (0..examples).map(|k| pair(&format!("e{}", k), "例")).collect(),
    }
}

fn sample() -> Entry {
    Entry {
        query: "run".to_string(),
        meanings: vec![
            Meaning { pos: "verb".to_string(), meanings: vec![item("move fast", 1), item("operate", 2)] },
            Meaning { pos: "noun".to_string(), meanings: vec![item("a jog", 1), item("operate", 1)] },
        ],
    }
}

#[test]
fn find_sense_takes_first_match_in_scan_order() {
    let e = sample();
    assert_eq!(e.find_sense("operate"), Some((0, 1)));
    assert_eq!(e.find_sense("a jog"), Some((1, 0)));
    assert_eq!(e.find_sense("fly"), None);
}

#[test]
fn find_sense_ignores_non_english_text() {
    let e = sample();
    assert_eq!(e.find_sense("义"), None);
}

#[test]
fn append_examples_keeps_existing_and_other_senses() {
    let mut e = Entry {
        query: "run".to_string(),
        meanings: vec![Meaning {
            pos: "verb".to_string(),
            meanings: vec![item("move fast", 1), item("operate", 2)],
        }],
    };
    let before = sample();
    e.append_examples(0, 0, vec![pair("n1", "新1"), pair("n2", "新2")]);
    assert_eq!(e.meanings[0].meanings[0].examples.len(), 3);
    assert_eq!(e.meanings[0].meanings[0].examples[0], pair("e0", "例"));
    assert_eq!(e.meanings[0].meanings[0].examples[2], pair("n2", "新2"));
    assert_eq!(e.meanings[0].meanings[1], before.meanings[0].meanings[1]);
    assert_eq!(e.query, "run");
}
