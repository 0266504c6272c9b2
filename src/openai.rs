use vstd::prelude::*;

use crate::entry::{Entry, Item, Lang, Meaning, Meanings};
use crate::error::BrocaError;
use crate::state::{lang_name, TargetLang};

verus! {

/// The completion service's reply envelope.
#[derive(Debug, PartialEq, Eq)]
pub struct Root {
    pub id: String,
    pub object: String,
    pub created: i64,
    pub model: String,
    pub usage: Usage,
    pub choices: Vec<Choice>,
}

/// Token counts reported by the completion service.
#[derive(Debug, PartialEq, Eq)]
pub struct Usage {
    pub prompt_tokens: i64,
    pub completion_tokens: i64,
    pub total_tokens: i64,
}

/// One answer in a reply envelope.
#[derive(Debug, PartialEq, Eq)]
pub struct Choice {
    pub message: Message,
    pub finish_reason: String,
    pub index: i64,
}

/// One message of a conversation with the completion service.
#[derive(Debug, PartialEq, Eq)]
pub struct Message {
    pub role: String,
    pub content: String,
}

/// A request to the completion service.
#[derive(Debug, PartialEq, Eq)]
pub struct ChatGPTQuery {
    pub model: String,
    pub messages: Vec<Message>,
}

/// A request for more example sentences of one sense of a query.
#[derive(Debug, PartialEq, Eq)]
pub struct SentenceExampleQuery {
    pub query: String,
    pub meaning: String,
}

/// What a well-shaped reply carries: the token counts and the answer text.
#[derive(Debug, PartialEq, Eq)]
pub struct Reply {
    pub prompt_tokens: u64,
    pub completion_tokens: u64,
    pub answer: String,
}

/// The completion model asked.
pub const MODEL: &'static str = "gpt-3.5-turbo";

/// The query of the worked examples.
pub const SAMPLE_QUERY: &'static str = "sentence";

/// The sense of the worked example for more example sentences.
pub const SAMPLE_SENSE: &'static str = "Declare the punishment decided for (an offender).";

/// The example given for the sample sense.
pub const SAMPLE_SENSE_EXAMPLE: &'static str = "Ten army officers were sentenced to death.";

/// The first noun sense of the worked example.
pub const CLAUSE_SENSE: &'static str = "A set of words that is complete in itself, typically containing a subject and predicate, conveying a statement, question, exclamation, or command, and consisting of a main clause and sometimes one or more subordinate clauses.";

/// The example given for the first noun sense.
pub const CLAUSE_EXAMPLE: &'static str = "The teacher ask each student to make a sentence.";

/// The second noun sense of the worked example.
pub const PENALTY_SENSE: &'static str = "The punishment assigned to a defendant found guilty by a court, or fixed by law for a particular offense.";

/// The example given for the second noun sense.
pub const PENALTY_EXAMPLE: &'static str = "Her husband is serving a three-year sentence for fraud.";

pub const ROLE_SYSTEM: &'static str = "system";

pub const ROLE_USER: &'static str = "user";

pub const ROLE_ASSISTANT: &'static str = "assistant";

/// The instruction that opens a lookup.
pub open spec fn lookup_instruction(lang: TargetLang) -> Seq<char> {
    "You are a dictionary bot. Given a query, reply its meaning and sample sentences in English and "@
        + lang_name(lang) + " in JSON format."@
}

/// The instruction that opens a request for more example sentences.
pub open spec fn examples_instruction(lang: TargetLang) -> Seq<char> {
    "You are a dictionary bot. Given a query, reply more sample sentences in English and "@
        + lang_name(lang) + " in JSON format."@
}

/// How a query and one of its senses are put to the service.
pub open spec fn sense_request(query: Seq<char>, meaning: Seq<char>) -> Seq<char> {
    "Query: \""@ + query + "\" Meaning: \""@ + meaning + "\"]"@
}

pub open spec fn is_message(m: Message, role: Seq<char>, content: Seq<char>) -> bool {
    m.role@ == role && m.content@ == content
}

/// `l` is text in `lang`.
pub open spec fn is_in(l: Lang, lang: TargetLang) -> bool {
    match lang {
        TargetLang::Chinese => l is Chinese,
        TargetLang::Spanish => l is Spanish,
        TargetLang::Japanese => l is Japanese,
        TargetLang::Korean => l is Korean,
        TargetLang::German => l is German,
        TargetLang::French => l is French,
        TargetLang::Portuguese => l is Portuguese,
    }
}

/// English text followed by text in `lang`.
pub open spec fn is_pair_in(v: Seq<Lang>, lang: TargetLang) -> bool {
    v.len() == 2 && v[0] is English && is_in(v[1], lang)
}

/// A sense defined in English and `lang`, with examples in both.
pub open spec fn is_item_in(item: Item, lang: TargetLang) -> bool {
    &&& is_pair_in(item.meaning@, lang)
    &&& forall|e: int| 0 <= e < item.examples@.len() ==> is_pair_in(#[trigger] item.examples@[e]@, lang)
}

/// Every sense of `m` is defined in English and `lang`, with examples in both.
pub open spec fn is_bilingual(m: Seq<Meaning>, lang: TargetLang) -> bool {
    forall|i: int, j: int|
        0 <= i < m.len() && 0 <= j < m[i].meanings@.len() ==> is_item_in(
            #[trigger] m[i].meanings@[j],
            lang,
        )
}

/// The English text of sense `j` of part of speech `i`, and of its example.
pub open spec fn sense_text(m: Seq<Meaning>, i: int, j: int) -> Seq<char> {
    text_of(m[i].meanings@[j].meaning@[0])@
}

pub open spec fn example_text(m: Seq<Meaning>, i: int, j: int) -> Seq<char> {
    text_of(m[i].meanings@[j].examples@[0]@[0])@
}

/// `m` is the worked example of a lookup of "sentence" in `lang`: a noun
/// with two senses and a verb with the sample sense, each sense with one
/// example pair, and the English side as given.
pub open spec fn is_worked_example(m: Seq<Meaning>, lang: TargetLang) -> bool {
    &&& is_bilingual(m, lang)
    &&& m.len() == 2
    &&& m[0].pos@ == "noun"@
    &&& m[1].pos@ == "verb"@
    &&& m[0].meanings@.len() == 2
    &&& m[1].meanings@.len() == 1
    &&& forall|i: int, j: int|
        0 <= i < m.len() && 0 <= j < m[i].meanings@.len()
            ==> (#[trigger] m[i].meanings@[j]).examples@.len() == 1
    &&& sense_text(m, 0, 0) == CLAUSE_SENSE@
    &&& example_text(m, 0, 0) == CLAUSE_EXAMPLE@
    &&& sense_text(m, 0, 1) == PENALTY_SENSE@
    &&& example_text(m, 0, 1) == PENALTY_EXAMPLE@
    &&& sense_text(m, 1, 0) == SAMPLE_SENSE@
    &&& example_text(m, 1, 0) == SAMPLE_SENSE_EXAMPLE@
}

/// The text carried, whatever its language.
pub open spec fn text_of(l: Lang) -> String {
    match l {
        Lang::English(s) => s,
        Lang::Chinese(s) => s,
        Lang::Spanish(s) => s,
        Lang::Japanese(s) => s,
        Lang::Korean(s) => s,
        Lang::German(s) => s,
        Lang::French(s) => s,
        Lang::Portuguese(s) => s,
    }
}

/// Text in `lang`.
pub fn text_in(lang: TargetLang, s: &str) -> (r: Lang)
    ensures
        is_in(r, lang),
        text_of(r)@ == s@,
{
    let s = String::from_str(s);
    match lang {
        TargetLang::Chinese => Lang::Chinese(s),
        TargetLang::Spanish => Lang::Spanish(s),
        TargetLang::Japanese => Lang::Japanese(s),
        TargetLang::Korean => Lang::Korean(s),
        TargetLang::German => Lang::German(s),
        TargetLang::French => Lang::French(s),
        TargetLang::Portuguese => Lang::Portuguese(s),
    }
}

/// English text followed by its rendering in `lang`.
fn pair_in(lang: TargetLang, english: &str, target: &str) -> (r: Vec<Lang>)
    ensures
        is_pair_in(r@, lang),
        text_of(r@[0])@ == english@,
        text_of(r@[1])@ == target@,
{
    let mut r: Vec<Lang> = Vec::new();
    r.push(Lang::English(String::from_str(english)));
    r.push(text_in(lang, target));
    r
}

/// A sense with one definition pair and one example pair.
fn sense_in(
    lang: TargetLang,
    english: &str,
    target: &str,
    english_example: &str,
    target_example: &str,
) -> (r: Item)
    ensures
        is_item_in(r, lang),
        r.examples@.len() == 1,
        text_of(r.meaning@[0])@ == english@,
        text_of(r.meaning@[1])@ == target@,
        text_of(r.examples@[0]@[0])@ == english_example@,
        text_of(r.examples@[0]@[1])@ == target_example@,
{
    let mut examples: Vec<Vec<Lang>> = Vec::new();
    examples.push(pair_in(lang, english_example, target_example));
    Item { meaning: pair_in(lang, english, target), examples }
}

/// The worked example of a lookup: the senses of "sentence", with the target
/// language's side given by `t` in order: the two noun senses, each with
/// its example, then the verb sense and its example.
fn worked_example(
    lang: TargetLang,
    t0: &str,
    t1: &str,
    t2: &str,
    t3: &str,
    t4: &str,
    t5: &str,
) -> (r: Meanings)
    ensures
        is_worked_example(r@, lang),
{
    let mut nouns: Vec<Item> = Vec::new();
    nouns.push(
        sense_in(lang, CLAUSE_SENSE, t0, CLAUSE_EXAMPLE, t1),
    );
    nouns.push(
        sense_in(lang, PENALTY_SENSE, t2, PENALTY_EXAMPLE, t3),
    );
    let mut verbs: Vec<Item> = Vec::new();
    verbs.push(sense_in(lang, SAMPLE_SENSE, t4, SAMPLE_SENSE_EXAMPLE, t5));
    let mut r: Meanings = Vec::new();
    r.push(Meaning { pos: String::from_str("noun"), meanings: nouns });
    r.push(Meaning { pos: String::from_str("verb"), meanings: verbs });
    assert forall|i: int, j: int|
        0 <= i < r@.len() && 0 <= j < r@[i].meanings@.len() implies is_item_in(
        #[trigger] r@[i].meanings@[j],
        lang,
    ) by {}
    assert forall|i: int, j: int| 0 <= i < r@.len() && 0 <= j < r@[i].meanings@.len() implies (
    #[trigger] r@[i].meanings@[j]).examples@.len() == 1 by {}
    r
}

/// The worked example of a lookup with Chinese as the target language.
pub fn sample_chinese_query() -> (r: Meanings)
    ensures
        is_worked_example(r@, TargetLang::Chinese),
{
    worked_example(
        TargetLang::Chinese,
        "一组本身完整的词，通常包含主语和谓语，传达陈述、问题、感叹或命令，并由主句和有时一个或多个从句组成。",
        "老师让每个学生造一个句子。",
        "法庭针对有罪的被告的惩罚。或是依法规定的惩罚。",
        "她丈夫正在为三年刑期服刑。",
        "对罪犯进行判决。",
        "十位军官被判处死刑。",
    )
}

/// The worked example of a lookup with Spanish as the target language.
pub fn sample_spanish_query() -> (r: Meanings)
    ensures
        is_worked_example(r@, TargetLang::Spanish),
{
    worked_example(
        TargetLang::Spanish,
        "Un conjunto de palabras completo en sí mismo, que normalmente contiene un sujeto y un predicado, transmite una declaración, pregunta, exclamación o comando, y consta de una cláusula principal y, a veces, una o más cláusulas subordinadas.",
        "El profesor pide a cada estudiante que haga una oración.",
        "El castigo asignado a un acusado declarado culpable por un tribunal, o fijado por la ley por un delito en particular.",
        "Su marido cumple una condena de tres años por fraude.",
        "Declarar la pena decidida para (un infractor).",
        "Diez oficiales del ejército fueron condenados a muerte.",
    )
}

/// The worked example of a lookup with Japanese as the target language.
pub fn sample_japanese_query() -> (r: Meanings)
    ensures
        is_worked_example(r@, TargetLang::Japanese),
{
    worked_example(
        TargetLang::Japanese,
        "それ自体で完全な単語のセットで、通常は主語と述語を含み、ステートメント、質問、感嘆符、または命令を伝え、主節と場合によっては 1 つまたは複数の従属節で構成されます。",
        "教師は各生徒に文を作るように求めます。",
        "裁判所によって有罪とされた、または特定の犯罪に対して法律によって定められた被告に割り当てられる刑罰。",
        "彼女の夫は、詐欺罪で 3 年の刑に服しています。",
        "（犯罪者）に対して決定された処罰を宣言します。",
        "陸軍将校10人が死刑を宣告された。",
    )
}

/// The worked example of a lookup with Korean as the target language.
pub fn sample_korean_query() -> (r: Meanings)
    ensures
        is_worked_example(r@, TargetLang::Korean),
{
    worked_example(
        TargetLang::Korean,
        "일반적으로 주어와 술어를 포함하고 진술, 질문, 느낌표 또는 명령을 전달하고 주절과 때때로 하나 이상의 종속절로 구성되는 그 자체로 완전한 단어 집합입니다.",
        "교사는 각 학생에게 문장을 만들라고 합니다.",
        "법원에서 유죄 판결을 받은 피고인에게 부과되는 형벌 또는 특정 범죄에 대해 법률에 의해 정해진 형벌.",
        "그녀의 남편은 사기죄로 3년 형을 선고받고 복역하고 있습니다.",
        "(가해자)에 대해 결정된 처벌을 선언합니다.",
        "육군 장교 10명이 사형을 선고받았다.",
    )
}

/// The worked example of a lookup with German as the target language.
pub fn sample_german_query() -> (r: Meanings)
    ensures
        is_worked_example(r@, TargetLang::German),
{
    worked_example(
        TargetLang::German,
        "Eine in sich abgeschlossene Wortgruppe, die typischerweise ein Subjekt und ein Prädikat enthält, eine Aussage, Frage, einen Ausruf oder einen Befehl übermittelt und aus einem Hauptsatz und manchmal einem oder mehreren Nebensätzen besteht.",
        "Die Lehrerin bittet jeden Schüler, einen Satz zu bilden.",
        "Die Strafe, die einem Angeklagten von einem Gericht für schuldig befunden oder gesetzlich für ein bestimmtes Vergehen festgelegt wurde.",
        "Ihr Ehemann verbüßt eine dreijährige Haftstrafe wegen Betrugs.",
        "Deklarieren Sie die Strafe, die für (einen Täter) entschieden wurde.",
        "Zehn Offiziere der Armee wurden zum Tode verurteilt.",
    )
}

/// The worked example of a lookup with French as the target language.
pub fn sample_french_query() -> (r: Meanings)
    ensures
        is_worked_example(r@, TargetLang::French),
{
    worked_example(
        TargetLang::French,
        "Un ensemble de mots qui est complet en lui-même, contenant généralement un sujet et un prédicat, véhiculant une déclaration, une question, une exclamation ou une commande, et consistant en une clause principale et parfois une ou plusieurs clauses subordonnées.",
        "Le professeur demande à chaque étudiant de faire une phrase.",
        "Peine infligée à un prévenu reconnu coupable par un tribunal ou fixée par la loi pour une infraction particulière.",
        "Son mari purge une peine de trois ans d'emprisonnement pour fraude.",
        "Déclarer la peine décidée pour (un délinquant).",
        "Dix officiers militaires ont été condamnés à mort.",
    )
}

/// The worked example of a lookup with Portuguese as the target language.
pub fn sample_portuguese_query() -> (r: Meanings)
    ensures
        is_worked_example(r@, TargetLang::Portuguese),
{
    worked_example(
        TargetLang::Portuguese,
        "Um conjunto de palavras que é completo em si mesmo, geralmente contendo um sujeito e um predicado, transmitindo uma afirmação, pergunta, exclamação ou comando e consistindo em uma oração principal e, às vezes, uma ou mais orações subordinadas.",
        "A professora pede que cada aluno faça uma frase.",
        "A punição atribuída a um réu considerado culpado por um tribunal, ou fixado por lei para uma ofensa específica.",
        "O marido dela cumpre uma sentença de três anos por fraude.",
        "Declarar a punição decidida para (um infrator).",
        "Dez militares foram condenados à morte.",
    )
}

/// The worked example of a lookup in `lang`: the senses of "sentence".
pub fn sample_meanings(lang: TargetLang) -> (r: Meanings)
    ensures
        is_worked_example(r@, lang),
{
    match lang {
        TargetLang::Chinese => sample_chinese_query(),
        TargetLang::Spanish => sample_spanish_query(),
        TargetLang::Japanese => sample_japanese_query(),
        TargetLang::Korean => sample_korean_query(),
        TargetLang::German => sample_german_query(),
        TargetLang::French => sample_french_query(),
        TargetLang::Portuguese => sample_portuguese_query(),
    }
}

/// The worked example of a request for more example sentences in `lang`:
/// two sentence pairs for the sample sense.
pub fn sample_sentence_pairs(lang: TargetLang) -> (r: Vec<Vec<Lang>>)
    ensures
        r@.len() == 2,
        forall|e: int| 0 <= e < r@.len() ==> is_pair_in(#[trigger] r@[e]@, lang),
{
    let (first, second) = match lang {
        TargetLang::Chinese => ("十位军官被判处死刑。", "法官判她入狱六个月。"),
        TargetLang::Spanish => ("Diez oficiales del ejército fueron condenados a muerte.", "La jueza la sentenció a seis meses de cárcel."),
        TargetLang::Japanese => ("陸軍将校10人が死刑を宣告された。", "裁判官は彼女に 6 か月の禁錮刑を宣告した。"),
        TargetLang::Korean => ("육군 장교 10명이 사형을 선고받았다.", "판사는 그녀에게 6개월의 징역형을 선고했다."),
        TargetLang::German => ("Zehn Offiziere der Armee wurden zum Tode verurteilt.", "Der Richter verurteilte sie zu einer sechsmonatigen Haft."),
        TargetLang::French => ("Dix officiers militaires ont été condamnés à mort.", "Le juge l'a condamnée à six mois d'emprisonnement."),
        TargetLang::Portuguese => ("Dez militares foram condenados à morte.", "O juiz a sentenciou a seis meses de prisão."),
    };
    let mut r: Vec<Vec<Lang>> = Vec::new();
    r.push(pair_in(lang, SAMPLE_SENSE_EXAMPLE, first));
    r.push(pair_in(lang, "The judge sentenced her to six months in jail.", second));
    r
}

/// A message with this role and content.
fn message(role: &str, content: String) -> (r: Message)
    ensures
        is_message(r, role@, content@),
{
    Message { role: String::from_str(role), content }
}

/// `q` is a four-message request: the instruction, a worked example as a
/// question and its answer, then the actual question.
pub open spec fn is_request(
    q: ChatGPTQuery,
    instruction: Seq<char>,
    sample_question: Seq<char>,
    sample_answer: Seq<char>,
    question: Seq<char>,
) -> bool {
    &&& q.model@ == MODEL@
    &&& q.messages@.len() == 4
    &&& is_message(q.messages@[0], ROLE_SYSTEM@, instruction)
    &&& is_message(q.messages@[1], ROLE_USER@, sample_question)
    &&& is_message(q.messages@[2], ROLE_ASSISTANT@, sample_answer)
    &&& is_message(q.messages@[3], ROLE_USER@, question)
}

fn request(instruction: String, sample_question: String, sample_answer: String, question: String) -> (r:
    ChatGPTQuery)
    ensures
        is_request(r, instruction@, sample_question@, sample_answer@, question@),
{
    let mut messages: Vec<Message> = Vec::new();
    messages.push(message(ROLE_SYSTEM, instruction));
    messages.push(message(ROLE_USER, sample_question));
    messages.push(message(ROLE_ASSISTANT, sample_answer));
    messages.push(message(ROLE_USER, question));
    ChatGPTQuery { model: String::from_str(MODEL), messages }
}

/// The lookup request for `query` in `target_lang`; `sample_answer` is the
/// serialized worked example of `sample_meanings(target_lang)`.
pub fn assemble_query(query: &str, target_lang: TargetLang, sample_answer: &str) -> (r: ChatGPTQuery)
    ensures
        is_request(r, lookup_instruction(target_lang), SAMPLE_QUERY@, sample_answer@, query@),
{
    let mut instruction = String::from_str(
        "You are a dictionary bot. Given a query, reply its meaning and sample sentences in English and ",
    );
    instruction.append(target_lang.name());
    instruction.append(" in JSON format.");
    request(
        instruction,
        String::from_str(SAMPLE_QUERY),
        String::from_str(sample_answer),
        String::from_str(query),
    )
}

/// How a query and one of its senses are put to the service.
pub fn sense_question(query: &str, meaning: &str) -> (r: String)
    ensures
        r@ == sense_request(query@, meaning@),
{
    let mut r = String::from_str("Query: \"");
    r.append(query);
    r.append("\" Meaning: \"");
    r.append(meaning);
    r.append("\"]");
    r
}

/// The request for more example sentences of one sense in `target_lang`;
/// `sample_answer` is the serialized `sample_sentence_pairs(target_lang)`.
pub fn assemble_sentence_example_query(
    sentence_query: &SentenceExampleQuery,
    target_lang: TargetLang,
    sample_answer: &str,
) -> (r: ChatGPTQuery)
    ensures
        is_request(
            r,
            examples_instruction(target_lang),
            sense_request(SAMPLE_QUERY@, SAMPLE_SENSE@),
            sample_answer@,
            sense_request(sentence_query.query@, sentence_query.meaning@),
        ),
{
    let mut instruction = String::from_str(
        "You are a dictionary bot. Given a query, reply more sample sentences in English and ",
    );
    instruction.append(target_lang.name());
    instruction.append(" in JSON format.");
    request(
        instruction,
        sense_question(SAMPLE_QUERY, SAMPLE_SENSE),
        String::from_str(sample_answer),
        sense_question(sentence_query.query.as_str(), sentence_query.meaning.as_str()),
    )
}

/// A success status.
pub open spec fn is_success(status: u16) -> bool {
    200 <= status < 300
}

/// An envelope with at least one answer and token counts that are not negative.
pub open spec fn is_well_shaped(root: Root) -> bool {
    &&& root.choices@.len() > 0
    &&& root.usage.prompt_tokens >= 0
    &&& root.usage.completion_tokens >= 0
}

/// Classifies a reply of the completion service by its status, and on
/// success reads the envelope (`None` when the body did not decode as one).
pub fn read_reply(status: u16, body: String, envelope: Option<Root>) -> (r: Result<Reply, BrocaError>)
    ensures
        status == 401 ==> r == Err::<Reply, BrocaError>(BrocaError::UpstreamUnauthorized),
        status == 429 ==> r == Err::<Reply, BrocaError>(BrocaError::UpstreamRateLimited),
        !is_success(status) && status != 401 && status != 429 ==> r == Err::<Reply, BrocaError>(
            BrocaError::UpstreamOther(status, body),
        ),
        is_success(status) && !(envelope is Some && is_well_shaped(envelope->0)) ==> r == Err::<
            Reply,
            BrocaError,
        >(BrocaError::UpstreamShapeMismatch),
        is_success(status) && envelope is Some && is_well_shaped(envelope->0) ==> (r matches Ok(reply)
            && reply.prompt_tokens == envelope->0.usage.prompt_tokens && reply.completion_tokens
            == envelope->0.usage.completion_tokens && reply.answer == envelope->0.choices@[0].message.content),
{
    if status == 401 {
        return Err(BrocaError::UpstreamUnauthorized);
    }
    if status == 429 {
        return Err(BrocaError::UpstreamRateLimited);
    }
    if status < 200 || status >= 300 {
        return Err(BrocaError::UpstreamOther(status, body));
    }
    match envelope {
        None => Err(BrocaError::UpstreamShapeMismatch),
        Some(root) => {
            if root.choices.len() == 0 || root.usage.prompt_tokens < 0 || root.usage.completion_tokens
                < 0 {
                return Err(BrocaError::UpstreamShapeMismatch);
            }
            let prompt_tokens = root.usage.prompt_tokens as u64;
            let completion_tokens = root.usage.completion_tokens as u64;
            let mut choices = root.choices;
            let first = choices.remove(0);
            Ok(Reply { prompt_tokens, completion_tokens, answer: first.message.content })
        },
    }
}

/// Wraps a lookup's decoded answer (`None` when the answer text did not
/// decode as meanings) with the query; a failed decoding carries the raw answer.
pub fn finish_lookup(query: String, reply: Reply, meanings: Option<Meanings>) -> (r: Result<
    (u64, u64, Entry),
    BrocaError,
>)
    ensures
        meanings is None ==> r == Err::<(u64, u64, Entry), BrocaError>(
            BrocaError::UpstreamParseFailure(reply.answer),
        ),
        meanings is Some ==> (r matches Ok((p, c, e)) && p == reply.prompt_tokens && c
            == reply.completion_tokens && e.query == query && e.meanings == meanings->0),
{
    match meanings {
        None => Err(BrocaError::UpstreamParseFailure(reply.answer)),
        Some(m) => Ok((reply.prompt_tokens, reply.completion_tokens, Entry { query, meanings: m })),
    }
}

/// Hands on the decoded example pairs of a reply (`None` when the answer
/// text did not decode as pairs); a failed decoding carries the raw answer.
pub fn finish_examples(reply: Reply, pairs: Option<Vec<Vec<Lang>>>) -> (r: Result<
    (u64, u64, Vec<Vec<Lang>>),
    BrocaError,
>)
    ensures
        pairs is None ==> r == Err::<(u64, u64, Vec<Vec<Lang>>), BrocaError>(
            BrocaError::UpstreamParseFailure(reply.answer),
        ),
        pairs is Some ==> (r matches Ok((p, c, w)) && p == reply.prompt_tokens && c
            == reply.completion_tokens && w == pairs->0),
{
    match pairs {
        None => Err(BrocaError::UpstreamParseFailure(reply.answer)),
        Some(v) => Ok((reply.prompt_tokens, reply.completion_tokens, v)),
    }
}

/// What `escape` makes of one character.
pub open spec fn escape_char(c: char) -> Seq<char> {
    if c == '\x08' {
        "\\b"@
    } else if c == '\x0c' {
        "\\f"@
    } else if c == '\n' {
        "\\n"@
    } else if c == '\r' {
        "\\r"@
    } else if c == '\t' {
        "\\t"@
    } else if c == '"' {
        "\\\""@
    } else if c == '\\' {
        "\\"@
    } else {
        seq![c]
    }
}

/// The text with each character replaced by its escape.
pub open spec fn escaped(s: Seq<char>) -> Seq<char>
    decreases s.len(),
{
    if s.len() == 0 {
        Seq::empty()
    } else {
        escaped(s.drop_last()) + escape_char(s.last())
    }
}

/// Escapes control characters and quotes for a JSON string; a backslash is
/// kept as a single backslash.
pub fn escape(src: &str) -> (r: String)
    ensures
        r@ == escaped(src@),
{
    let n = src.unicode_len();
    let mut r = String::new();
    let mut i: usize = 0;
    while i < n
        invariant
            n == src@.len(),
            i <= n,
            r@ == escaped(src@.subrange(0, i as int)),
        decreases n - i,
    {
        let c = src.get_char(i);
        let ghost prefix = src@.subrange(0, i + 1);
        assert(prefix.drop_last() =~= src@.subrange(0, i as int));
        assert(prefix.last() == c);
        if c == '\x08' {
            r.append("\\b");
        } else if c == '\x0c' {
            r.append("\\f");
        } else if c == '\n' {
            r.append("\\n");
        } else if c == '\r' {
            r.append("\\r");
        } else if c == '\t' {
            r.append("\\t");
        } else if c == '"' {
            r.append("\\\"");
        } else if c == '\\' {
            r.append("\\");
        } else {
            let one = src.substring_char(i, i + 1);
            assert(one@ =~= seq![c]);
            r.append(one);
        }
        i = i + 1;
    }
    assert(src@.subrange(0, n as int) =~= src@);
    r
}

} // verus!
