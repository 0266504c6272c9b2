use broca::entry::{Lang, Meaning};
use broca::error::BrocaError;
use broca::openai::{
    assemble_query, assemble_sentence_example_query, escape, finish_examples, finish_lookup, read_reply,
    sample_meanings, sample_sentence_pairs, sense_question, Choice, Message, Reply, Root,
    SentenceExampleQuery, Usage, SAMPLE_SENSE,
};
use broca::state::TargetLang;

const ALL: [TargetLang; 7] = [
    TargetLang::Chinese,
    TargetLang::Spanish,
    TargetLang::Japanese,
    TargetLang::Korean,
    TargetLang::German,
    TargetLang::French,
    TargetLang::Portuguese,
];

fn envelope(choices: usize, prompt: i64, completion: i64) -> Root {
    Root {
        id: "id".to_string(),
        object: "chat.completion".to_string(),
        created: 1,
        model: "gpt-3.5-turbo".to_string(),
        usage: Usage { prompt_tokens: prompt, completion_tokens: completion, total_tokens: prompt + completion },
        choices: (0..choices)
            .map(|k| Choice {
                message: Message { role: "assistant".to_string(), content: format!("answer{}", k) },
                finish_reason: "stop".to_string(),
                index: k as i64,
            })
            .collect(),
    }
}

#[test]
fn lookup_request_has_instruction_example_and_query() {
    let q = assemble_query("whim", TargetLang::German, "[sample]");
    assert_eq!(q.model, "gpt-3.5-turbo");
    let m: Vec<(String, String)> = q.messages.into_iter().map(|m| (m.role, m.content)).collect();
    assert_eq!(
        m,
        vec![
            (
                "system".to_string(),
                "You are a dictionary bot. Given a query, reply its meaning and sample sentences in English and German in JSON format.".to_string()
            ),
            ("user".to_string(), "sentence".to_string()),
            ("assistant".to_string(), "[sample]".to_string()),
            ("user".to_string(), "whim".to_string()),
        ]
    );
}

#[test]
fn example_request_names_query_and_sense() {
    let sq = SentenceExampleQuery { query: "run".to_string(), meaning: "move fast".to_string() };
    let q = assemble_sentence_example_query(&sq, TargetLang::Korean, "[pairs]");
    assert_eq!(q.messages.len(), 4);
    assert_eq!(
        q.messages[0].content,
        "You are a dictionary bot. Given a query, reply more sample sentences in English and Korean in JSON format."
    );
    assert_eq!(
        q.messages[1].content,
        "Query: \"sentence\" Meaning: \"Declare the punishment decided for (an offender).\"]"
    );
    assert_eq!(q.messages[2].role, "assistant");
    assert_eq!(q.messages[2].content, "[pairs]");
    assert_eq!(q.messages[3].content, "Query: \"run\" Meaning: \"move fast\"]");
    assert_eq!(sense_question("a", "b"), "Query: \"a\" Meaning: \"b\"]");
}

fn is_target(l: &Lang, lang: TargetLang) -> bool {
    matches!(
        (l, lang),
        (Lang::Chinese(_), TargetLang::Chinese)
            | (Lang::Spanish(_), TargetLang::Spanish)
            | (Lang::Japanese(_), TargetLang::Japanese)
            | (Lang::Korean(_), TargetLang::Korean)
            | (Lang::German(_), TargetLang::German)
            | (Lang::French(_), TargetLang::French)
            | (Lang::Portuguese(_), TargetLang::Portuguese)
    )
}

fn bilingual(v: &[Lang], lang: TargetLang) -> bool {
    v.len() == 2 && matches!(v[0], Lang::English(_)) && is_target(&v[1], lang)
}

#[test]
fn worked_examples_are_bilingual_in_each_language() {
    for lang in ALL {
        let m: Vec<Meaning> = sample_meanings(lang);
        assert_eq!(m.len(), 2);
        assert_eq!(m[0].pos, "noun");
        assert_eq!(m[1].pos, "verb");
        assert_eq!(m[0].meanings.len() + m[1].meanings.len(), 3);
        for part in &m {
            for item in &part.meanings {
                assert!(bilingual(&item.meaning, lang));
                assert!(item.examples.iter().all(|e| bilingual(e, lang)));
            }
        }
        let pairs = sample_sentence_pairs(lang);
        assert_eq!(pairs.len(), 2);
        assert!(pairs.iter().all(|p| bilingual(p, lang)));
    }
}

#[test]
fn reply_status_classification() {
    assert_eq!(read_reply(401, "no".to_string(), None), Err(BrocaError::UpstreamUnauthorized));
    assert_eq!(read_reply(429, "slow".to_string(), None), Err(BrocaError::UpstreamRateLimited));
    assert_eq!(
        read_reply(500, "boom".to_string(), Some(envelope(1, 1, 1))),
        Err(BrocaError::UpstreamOther(500, "boom".to_string()))
    );
    assert_eq!(read_reply(200, "{".to_string(), None), Err(BrocaError::UpstreamShapeMismatch));
    assert_eq!(read_reply(200, "{}".to_string(), Some(envelope(0, 1, 1))), Err(BrocaError::UpstreamShapeMismatch));
    assert_eq!(read_reply(200, "{}".to_string(), Some(envelope(1, -1, 1))), Err(BrocaError::UpstreamShapeMismatch));
}

#[test]
fn reply_takes_first_answer_and_usage() {
    let r = read_reply(200, "{}".to_string(), Some(envelope(2, 10, 20)));
    assert_eq!(r, Ok(Reply { prompt_tokens: 10, completion_tokens: 20, answer: "answer0".to_string() }));
}

#[test]
fn undecodable_answer_carries_raw_text() {
    let reply = Reply { prompt_tokens: 1, completion_tokens: 2, answer: "not json".to_string() };
    assert_eq!(
        finish_lookup("whim".to_string(), reply, None),
        Err(BrocaError::UpstreamParseFailure("not json".to_string()))
    );
    let reply = Reply { prompt_tokens: 1, completion_tokens: 2, answer: "oops".to_string() };
    assert_eq!(finish_examples(reply, None), Err(BrocaError::UpstreamParseFailure("oops".to_string())));
}

#[test]
fn decoded_answer_is_wrapped_with_query() {
    let reply = Reply { prompt_tokens: 3, completion_tokens: 4, answer: "[]".to_string() };
    let m = vec![Meaning { pos: "noun".to_string(), meanings: vec![] }];
    let (p, c, e) = finish_lookup("Whim".to_string(), reply, Some(m)).unwrap();
    assert_eq!((p, c), (3, 4));
    assert_eq!(e.query, "Whim");
    assert_eq!(e.meanings.len(), 1);
    let reply = Reply { prompt_tokens: 5, completion_tokens: 6, answer: "[]".to_string() };
    let pairs = vec![vec![Lang::English("x".to_string())]];
    let expected = vec![vec![Lang::English("x".to_string())]];
    assert_eq!(finish_examples(reply, Some(pairs)), Ok((5, 6, expected)));
}

#[test]
fn escape_values() {
    assert_eq!(escape("a\"b\n\tc"), "a\\\"b\\n\\tc");
    assert_eq!(escape("\u{8}\u{c}\r"), "\\b\\f\\r");
    assert_eq!(escape("a\\b"), "a\\b");
    assert_eq!(escape("词"), "词");
    assert_eq!(escape(""), "");
}

fn english(l: &Lang) -> &str {
    match l {
        Lang::English(s) => s.as_str(),
        _ => "",
    }
}

fn target_text(l: &Lang) -> &str {
    match l {
        Lang::Chinese(s)
        | Lang::Spanish(s)
        | Lang::Japanese(s)
        | Lang::Korean(s)
        | Lang::German(s)
        | Lang::French(s)
        | Lang::Portuguese(s) => s.as_str(),
        Lang::English(_) => "",
    }
}

#[test]
fn worked_example_senses_each_carry_one_example() {
    for lang in ALL {
        let m = sample_meanings(lang);
        assert_eq!(m[0].meanings.len(), 2);
        assert_eq!(m[1].meanings.len(), 1);
        for part in &m {
            for item in &part.meanings {
                assert_eq!(item.examples.len(), 1);
                assert!(!english(&item.meaning[0]).is_empty());
                assert!(!target_text(&item.meaning[1]).is_empty());
                assert!(!target_text(&item.examples[0][1]).is_empty());
            }
        }
        assert_eq!(english(&m[1].meanings[0].meaning[0]), SAMPLE_SENSE);
        assert_eq!(english(&m[1].meanings[0].examples[0][0]), "Ten army officers were sentenced to death.");
        assert_eq!(
            english(&m[0].meanings[1].examples[0][0]),
            "Her husband is serving a three-year sentence for fraud."
        );
    }
}
