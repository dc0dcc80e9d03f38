//! The response parser: pulls a JSON payload out of free-form model
//! output and maps it into typed question records.
//!
//! `extract_json` is a best-effort brace heuristic; the payload is then
//! deserialized strictly against the expected schema (an `examples` or
//! `exercises` array of objects with `question`/`answer` strings and
//! optional `analysis`, `knowledge_points`, `chapter`, `section`), and
//! each record receives the deterministic id
//! `{file_id}_{page}_{type}_{index}`.

use vstd::prelude::*;
use vstd::string::*;
use crate::json::{
    Json, json_of, obj_lookup, parse_json, value_as_array, value_as_str, value_get, value_is_null,
    value_model,
};
use crate::text::{
    clone_strings, dec_str, find_char, first_idx, last_idx, lemma_first_idx,
    lemma_first_idx_none, lemma_last_idx, lemma_last_idx_none, rfind_char, str_views, u32_to_dec,
    usize_to_dec,
};

verus! {

/// A question produced during a run.  `example` questions carry their
/// original answer; `exercise` answers are generated.
#[derive(Debug)]
pub struct Question {
    pub id: String,
    pub file_id: String,
    /// `example` or `exercise`.
    pub question_type: String,
    pub chapter: String,
    pub section: String,
    pub knowledge_points: Vec<String>,
    pub question_text: String,
    pub answer: String,
    pub analysis: String,
    pub page_number: u32,
    pub has_original_answer: bool,
}

/// The mathematical content of a [`Question`].
pub struct QuestionView {
    pub id: Seq<char>,
    pub file_id: Seq<char>,
    pub question_type: Seq<char>,
    pub chapter: Seq<char>,
    pub section: Seq<char>,
    pub knowledge_points: Seq<Seq<char>>,
    pub question_text: Seq<char>,
    pub answer: Seq<char>,
    pub analysis: Seq<char>,
    pub page_number: u32,
    pub has_original_answer: bool,
}

impl View for Question {
    type V = QuestionView;

    open spec fn view(&self) -> QuestionView {
        QuestionView {
            id: self.id@,
            file_id: self.file_id@,
            question_type: self.question_type@,
            chapter: self.chapter@,
            section: self.section@,
            knowledge_points: str_views(self.knowledge_points@),
            question_text: self.question_text@,
            answer: self.answer@,
            analysis: self.analysis@,
            page_number: self.page_number,
            has_original_answer: self.has_original_answer,
        }
    }
}

/// The views of a sequence of questions.
pub open spec fn question_views(v: Seq<Question>) -> Seq<QuestionView> {
    v.map_values(|q: Question| q@)
}

impl Question {
    /// A field-for-field copy.
    pub fn duplicate(&self) -> (r: Question)
        ensures
            r@ == self@,
    {
        let r = Question {
            id: self.id.clone(),
            file_id: self.file_id.clone(),
            question_type: self.question_type.clone(),
            chapter: self.chapter.clone(),
            section: self.section.clone(),
            knowledge_points: clone_strings(&self.knowledge_points),
            question_text: self.question_text.clone(),
            answer: self.answer.clone(),
            analysis: self.analysis.clone(),
            page_number: self.page_number,
            has_original_answer: self.has_original_answer,
        };
        proof {
            assert(str_views(r.knowledge_points@) =~= str_views(self.knowledge_points@));
        }
        r
    }
}

/// Why a response failed to parse.
#[derive(PartialEq, Eq, Structural, Clone, Copy, Debug)]
pub enum ParseError {
    /// The extracted payload is not valid JSON.
    Syntax,
    /// The payload is JSON but does not match the expected schema.
    Schema,
}

/// What `extract_json` returns: the inclusive span from the first `{`
/// to the last `}`; the text unchanged when it has no `{`; and — where
/// the last `}` comes before the first `{`, so no such span exists —
/// the empty string.
pub open spec fn extract_json_spec(s: Seq<char>) -> Seq<char> {
    match (first_idx(s, '{'), last_idx(s, '}')) {
        (Some(a), Some(b)) => if a <= b {
            s.subrange(a, b + 1)
        } else {
            Seq::empty()
        },
        _ => s,
    }
}

/// Cuts the inclusive span from the first `{` to the last `}` out of
/// `text`; with no `{` the text comes back unchanged (so that a strict
/// parse then fails with a typed error), and with the last `}` before
/// the first `{` the span is empty.  A best-effort heuristic: nested or
/// multiple JSON blocks and braces inside string literals defeat it.
pub fn extract_json(text: &str) -> (r: String)
    ensures
        r@ == extract_json_spec(text@),
{
    let n = text.unicode_len();
    let open = find_char(text, '{');
    let close = rfind_char(text, '}');
    proof {
        match open {
            Some(i) => lemma_first_idx(text@, '{', i as int),
            None => lemma_first_idx_none(text@, '{'),
        }
        match close {
            Some(i) => lemma_last_idx(text@, '}', i as int),
            None => lemma_last_idx_none(text@, '}'),
        }
    }
    match (open, close) {
        (Some(a), Some(b)) => {
            if a <= b {
                proof {
                    assert(b < n);
                }
                text.substring_char(a, b + 1).to_owned()
            } else {
                proof {
                    assert(extract_json_spec(text@) =~= Seq::<char>::empty());
                }
                String::new()
            }
        },
        _ => text.to_owned(),
    }
}

/// One record of the response payload, before it becomes a question.
#[derive(Debug)]
pub struct RawItem {
    pub question: String,
    pub answer: String,
    pub analysis: Option<String>,
    pub knowledge_points: Option<Vec<String>>,
    pub chapter: Option<String>,
    pub section: Option<String>,
}

/// The mathematical content of a [`RawItem`].
pub struct RawItemView {
    pub question: Seq<char>,
    pub answer: Seq<char>,
    pub analysis: Option<Seq<char>>,
    pub knowledge_points: Option<Seq<Seq<char>>>,
    pub chapter: Option<Seq<char>>,
    pub section: Option<Seq<char>>,
}

impl View for RawItem {
    type V = RawItemView;

    open spec fn view(&self) -> RawItemView {
        RawItemView {
            question: self.question@,
            answer: self.answer@,
            analysis: match self.analysis {
                Some(ref s) => Some(s@),
                None => None,
            },
            knowledge_points: match self.knowledge_points {
                Some(ref v) => Some(str_views(v@)),
                None => None,
            },
            chapter: match self.chapter {
                Some(ref s) => Some(s@),
                None => None,
            },
            section: match self.section {
                Some(ref s) => Some(s@),
                None => None,
            },
        }
    }
}

/// The views of a sequence of raw items.
pub open spec fn item_views(v: Seq<RawItem>) -> Seq<RawItemView> {
    v.map_values(|x: RawItem| x@)
}

/// A required string field: present and a string, or the record is
/// rejected.
pub open spec fn req_str_field(entries: Seq<(Seq<char>, Json)>, k: Seq<char>) -> Option<Seq<char>> {
    match obj_lookup(entries, k) {
        Some(Json::Str(s)) => Some(s),
        _ => None,
    }
}

/// An optional string field: absent or null means no value, a string is
/// taken, anything else rejects the record (outer `None`).
pub open spec fn opt_str_field(entries: Seq<(Seq<char>, Json)>, k: Seq<char>) -> Option<
    Option<Seq<char>>,
> {
    match obj_lookup(entries, k) {
        None => Some(None),
        Some(Json::Null) => Some(None),
        Some(Json::Str(s)) => Some(Some(s)),
        Some(_) => None,
    }
}

/// The payloads of an all-string JSON array, or `None` if some element
/// is not a string.
pub open spec fn strings_of(elts: Seq<Json>) -> Option<Seq<Seq<char>>>
    decreases elts.len(),
{
    if elts.len() == 0 {
        Some(Seq::empty())
    } else {
        match (strings_of(elts.drop_last()), elts.last()) {
            (Some(rest), Json::Str(s)) => Some(rest.push(s)),
            _ => None,
        }
    }
}

/// An optional array-of-strings field, like [`opt_str_field`].
pub open spec fn opt_strings_field(entries: Seq<(Seq<char>, Json)>, k: Seq<char>) -> Option<
    Option<Seq<Seq<char>>>,
> {
    match obj_lookup(entries, k) {
        None => Some(None),
        Some(Json::Null) => Some(None),
        Some(Json::Arr(elts)) => match strings_of(elts) {
            Some(v) => Some(Some(v)),
            None => None,
        },
        Some(_) => None,
    }
}

/// One payload record: an object with `question` and `answer` strings
/// and well-typed optional fields.
pub open spec fn item_model(j: Json) -> Option<RawItemView> {
    match j {
        Json::Obj(entries) => {
            let q = req_str_field(entries, "question"@);
            let a = req_str_field(entries, "answer"@);
            let an = opt_str_field(entries, "analysis"@);
            let kp = opt_strings_field(entries, "knowledge_points"@);
            let ch = opt_str_field(entries, "chapter"@);
            let se = opt_str_field(entries, "section"@);
            if q is Some && a is Some && an is Some && kp is Some && ch is Some && se is Some {
                Some(
                    RawItemView {
                        question: q->Some_0,
                        answer: a->Some_0,
                        analysis: an->Some_0,
                        knowledge_points: kp->Some_0,
                        chapter: ch->Some_0,
                        section: se->Some_0,
                    },
                )
            } else {
                None
            }
        },
        _ => None,
    }
}

/// All records of an array, or `None` if any record is malformed.
pub open spec fn items_of(elts: Seq<Json>) -> Option<Seq<RawItemView>>
    decreases elts.len(),
{
    if elts.len() == 0 {
        Some(Seq::empty())
    } else {
        match (items_of(elts.drop_last()), item_model(elts.last())) {
            (Some(rest), Some(item)) => Some(rest.push(item)),
            _ => None,
        }
    }
}

/// The records of the payload: the top level must be an object whose
/// key `k` holds an array of well-formed records.
pub open spec fn payload_items(j: Json, k: Seq<char>) -> Option<Seq<RawItemView>> {
    match j {
        Json::Obj(entries) => match obj_lookup(entries, k) {
            Some(Json::Arr(elts)) => items_of(elts),
            _ => None,
        },
        _ => None,
    }
}

fn read_req_str(v: &serde_json::Value, key: &str) -> (r: Option<String>)
    ensures
        match value_model(*v) {
            Json::Obj(entries) => {
                &&& (r is Some <==> req_str_field(entries, key@) is Some)
                &&& (r matches Some(s) ==> req_str_field(entries, key@) == Some(s@))
            },
            _ => r is None,
        },
{
    match value_get(v, key) {
        Some(f) => match value_as_str(f) {
            Some(s) => Some(s.to_owned()),
            None => None,
        },
        None => None,
    }
}

fn read_opt_str(v: &serde_json::Value, key: &str) -> (r: Option<Option<String>>)
    ensures
        match value_model(*v) {
            Json::Obj(entries) => {
                &&& (r is Some <==> opt_str_field(entries, key@) is Some)
                &&& (r matches Some(o) ==> opt_str_field(entries, key@) == Some(
                    match o {
                        Some(s) => Some(s@),
                        None => None::<Seq<char>>,
                    },
                ))
            },
            _ => r == Some(None::<String>),
        },
{
    match value_get(v, key) {
        None => Some(None),
        Some(f) => {
            if value_is_null(f) {
                Some(None)
            } else {
                match value_as_str(f) {
                    Some(s) => Some(Some(s.to_owned())),
                    None => None,
                }
            }
        },
    }
}

fn read_opt_strings(v: &serde_json::Value, key: &str) -> (r: Option<Option<Vec<String>>>)
    ensures
        match value_model(*v) {
            Json::Obj(entries) => {
                &&& (r is Some <==> opt_strings_field(entries, key@) is Some)
                &&& (r matches Some(o) ==> opt_strings_field(entries, key@) == Some(
                    match o {
                        Some(ref vs) => Some(str_views(vs@)),
                        None => None::<Seq<Seq<char>>>,
                    },
                ))
            },
            _ => r matches Some(o) && o is None,
        },
{
    match value_get(v, key) {
        None => Some(None),
        Some(f) => {
            if value_is_null(f) {
                Some(None)
            } else {
                match value_as_array(f) {
                    Some(a) => {
                        let ghost elts = value_model(*f)->Arr_0;
                        let n = a.len();
                        let mut out: Vec<String> = Vec::new();
                        let mut i: usize = 0;
                        proof {
                            assert(elts.take(0) =~= Seq::<Json>::empty());
                            assert(strings_of(elts.take(0)) == Some(str_views(out@)) || str_views(
                                out@,
                            ) =~= Seq::<Seq<char>>::empty());
                            assert(str_views(out@) =~= Seq::<Seq<char>>::empty());
                        }
                        while i < n
                            invariant
                                0 <= i <= n,
                                n == a@.len(),
                                n == elts.len(),
                                value_model(*v) is Obj,
                                obj_lookup(value_model(*v)->Obj_0, key@) == Some(
                                    Json::Arr(elts),
                                ),
                                forall|k: int| 0 <= k < elts.len() ==> value_model(
                                    #[trigger] a@[k],
                                ) == elts[k],
                                strings_of(elts.take(i as int)) == Some(str_views(out@)),
                            decreases n - i,
                        {
                            proof {
                                assert(elts.take(i + 1).drop_last() =~= elts.take(i as int));
                                assert(elts.take(i + 1).last() == elts[i as int]);
                            }
                            match value_as_str(&a[i]) {
                                Some(s) => {
                                    out.push(s.to_owned());
                                    proof {
                                        assert(str_views(out@) =~= str_views(
                                            out@.drop_last(),
                                        ).push(elts[i as int]->Str_0));
                                    }
                                },
                                None => {
                                    proof {
                                        lemma_strings_of_bad(elts, i as int);
                                    }
                                    return None;
                                },
                            }
                            i += 1;
                        }
                        proof {
                            assert(elts.take(n as int) =~= elts);
                        }
                        Some(Some(out))
                    },
                    None => None,
                }
            }
        },
    }
}

proof fn lemma_strings_of_bad(elts: Seq<Json>, i: int)
    requires
        0 <= i < elts.len(),
        !(elts[i] is Str),
    ensures
        strings_of(elts) is None,
    decreases elts.len(),
{
    if elts.len() > 0 {
        if i < elts.len() - 1 {
            let rest = elts.drop_last();
            assert(rest[i] == elts[i]);
            lemma_strings_of_bad(rest, i);
        }
    }
}

fn read_item(v: &serde_json::Value) -> (r: Option<RawItem>)
    ensures
        r is Some <==> item_model(value_model(*v)) is Some,
        r matches Some(it) ==> item_model(value_model(*v)) == Some(it@),
{
    let question = match read_req_str(v, "question") {
        Some(s) => s,
        None => {
            return None;
        },
    };
    let answer = match read_req_str(v, "answer") {
        Some(s) => s,
        None => {
            return None;
        },
    };
    let analysis = match read_opt_str(v, "analysis") {
        Some(o) => o,
        None => {
            return None;
        },
    };
    let knowledge_points = match read_opt_strings(v, "knowledge_points") {
        Some(o) => o,
        None => {
            return None;
        },
    };
    let chapter = match read_opt_str(v, "chapter") {
        Some(o) => o,
        None => {
            return None;
        },
    };
    let section = match read_opt_str(v, "section") {
        Some(o) => o,
        None => {
            return None;
        },
    };
    Some(RawItem { question, answer, analysis, knowledge_points, chapter, section })
}

fn parse_payload_items(text: &str, key: &str) -> (r: Result<Vec<RawItem>, ParseError>)
    ensures
        match json_of(text@) {
            None => r == Err::<Vec<RawItem>, ParseError>(ParseError::Syntax),
            Some(j) => match payload_items(j, key@) {
                None => r == Err::<Vec<RawItem>, ParseError>(ParseError::Schema),
                Some(items) => r matches Ok(v) && item_views(v@) == items,
            },
        },
{
    let parsed = match parse_json(text) {
        Some(v) => v,
        None => {
            return Err(ParseError::Syntax);
        },
    };
    let field = match value_get(&parsed, key) {
        Some(f) => f,
        None => {
            return Err(ParseError::Schema);
        },
    };
    let arr = match value_as_array(field) {
        Some(a) => a,
        None => {
            return Err(ParseError::Schema);
        },
    };
    let ghost elts = value_model(*field)->Arr_0;
    let n = arr.len();
    let mut out: Vec<RawItem> = Vec::new();
    let mut i: usize = 0;
    proof {
        assert(elts.take(0) =~= Seq::<Json>::empty());
        assert(item_views(out@) =~= Seq::<RawItemView>::empty());
    }
    while i < n
        invariant
            0 <= i <= n,
            n == arr@.len(),
            n == elts.len(),
            json_of(text@) == Some(value_model(parsed)),
            value_model(parsed) is Obj,
            obj_lookup(value_model(parsed)->Obj_0, key@) == Some(Json::Arr(elts)),
            forall|k: int| 0 <= k < elts.len() ==> value_model(#[trigger] arr@[k]) == elts[k],
            items_of(elts.take(i as int)) == Some(item_views(out@)),
        decreases n - i,
    {
        proof {
            assert(elts.take(i + 1).drop_last() =~= elts.take(i as int));
            assert(elts.take(i + 1).last() == elts[i as int]);
        }
        match read_item(&arr[i]) {
            Some(it) => {
                out.push(it);
                proof {
                    assert(item_views(out@) =~= item_views(out@.drop_last()).push(
                        out@.last()@,
                    ));
                }
            },
            None => {
                proof {
                    lemma_items_of_bad(elts, i as int);
                }
                return Err(ParseError::Schema);
            },
        }
        i += 1;
    }
    proof {
        assert(elts.take(n as int) =~= elts);
    }
    Ok(out)
}

proof fn lemma_items_of_bad(elts: Seq<Json>, i: int)
    requires
        0 <= i < elts.len(),
        item_model(elts[i]) is None,
    ensures
        items_of(elts) is None,
    decreases elts.len(),
{
    if elts.len() > 0 {
        if i < elts.len() - 1 {
            let rest = elts.drop_last();
            assert(rest[i] == elts[i]);
            lemma_items_of_bad(rest, i);
        }
    }
}

/// The deterministic id `{file_id}_{page}_{type}_{index}` of a parsed
/// question: re-running the same page reproduces the same ids.
pub open spec fn question_id_spec(
    file_id: Seq<char>,
    page: u32,
    qtype: Seq<char>,
    idx: int,
) -> Seq<char> {
    file_id + "_"@ + dec_str(page as int) + "_"@ + qtype + "_"@ + dec_str(idx)
}

/// The question a payload record at position `idx` becomes: optional
/// fields default to empty, examples keep their original answer.
pub open spec fn question_of_item(
    item: RawItemView,
    file_id: Seq<char>,
    page: u32,
    qtype: Seq<char>,
    has_orig: bool,
    idx: int,
) -> QuestionView {
    QuestionView {
        id: question_id_spec(file_id, page, qtype, idx),
        file_id: file_id,
        question_type: qtype,
        chapter: match item.chapter {
            Some(c) => c,
            None => Seq::empty(),
        },
        section: match item.section {
            Some(s) => s,
            None => Seq::empty(),
        },
        knowledge_points: match item.knowledge_points {
            Some(k) => k,
            None => Seq::empty(),
        },
        question_text: item.question,
        answer: item.answer,
        analysis: match item.analysis {
            Some(a) => a,
            None => Seq::empty(),
        },
        page_number: page,
        has_original_answer: has_orig,
    }
}

/// The questions of a whole payload, in payload order.
pub open spec fn questions_of_items(
    items: Seq<RawItemView>,
    file_id: Seq<char>,
    page: u32,
    qtype: Seq<char>,
    has_orig: bool,
) -> Seq<QuestionView> {
    Seq::new(items.len(), |i: int| question_of_item(items[i], file_id, page, qtype, has_orig, i))
}

fn build_question(item: &RawItem, file_id: &str, page: u32, is_example: bool, idx: usize) -> (q:
    Question)
    ensures
        q@ == question_of_item(
            item@,
            file_id@,
            page,
            if is_example {
                "example"@
            } else {
                "exercise"@
            },
            is_example,
            idx as int,
        ),
{
    let qtype: &str = if is_example {
        "example"
    } else {
        "exercise"
    };
    let mut id = String::new();
    id.append(file_id);
    id.append("_");
    let page_dec = u32_to_dec(page);
    id.append(page_dec.as_str());
    id.append("_");
    id.append(qtype);
    id.append("_");
    let idx_dec = usize_to_dec(idx);
    id.append(idx_dec.as_str());
    let chapter = match &item.chapter {
        Some(c) => c.clone(),
        None => String::new(),
    };
    let section = match &item.section {
        Some(s) => s.clone(),
        None => String::new(),
    };
    let knowledge_points = match &item.knowledge_points {
        Some(v) => clone_strings(v),
        None => Vec::new(),
    };
    let analysis = match &item.analysis {
        Some(a) => a.clone(),
        None => String::new(),
    };
    let q = Question {
        id,
        file_id: file_id.to_owned(),
        question_type: qtype.to_owned(),
        chapter,
        section,
        knowledge_points,
        question_text: item.question.clone(),
        answer: item.answer.clone(),
        analysis,
        page_number: page,
        has_original_answer: is_example,
    };
    proof {
        let ghost qt = if is_example {
            "example"@
        } else {
            "exercise"@
        };
        assert(q.id@ =~= question_id_spec(file_id@, page, qt, idx as int));
        assert(str_views(q.knowledge_points@) =~= match item@.knowledge_points {
            Some(k) => k,
            None => Seq::<Seq<char>>::empty(),
        });
        assert(q@ == question_of_item(item@, file_id@, page, qt, is_example, idx as int));
    }
    q
}

fn parse_response(json_str: &str, file_id: &str, page: u32, is_example: bool) -> (r: Result<
    Vec<Question>,
    ParseError,
>)
    ensures
        match json_of(extract_json_spec(json_str@)) {
            None => r == Err::<Vec<Question>, ParseError>(ParseError::Syntax),
            Some(j) => match payload_items(
                j,
                if is_example {
                    "examples"@
                } else {
                    "exercises"@
                },
            ) {
                None => r == Err::<Vec<Question>, ParseError>(ParseError::Schema),
                Some(items) => r matches Ok(qs) && question_views(qs@) == questions_of_items(
                    items,
                    file_id@,
                    page,
                    if is_example {
                        "example"@
                    } else {
                        "exercise"@
                    },
                    is_example,
                ),
            },
        },
{
    let cut = extract_json(json_str);
    let key: &str = if is_example {
        "examples"
    } else {
        "exercises"
    };
    let items = match parse_payload_items(cut.as_str(), key) {
        Ok(v) => v,
        Err(e) => {
            return Err(e);
        },
    };
    let ghost ivs = item_views(items@);
    let ghost qt = if is_example {
        "example"@
    } else {
        "exercise"@
    };
    let n = items.len();
    let mut out: Vec<Question> = Vec::new();
    let mut i: usize = 0;
    proof {
        assert(question_views(out@) =~= questions_of_items(
            ivs.take(0),
            file_id@,
            page,
            qt,
            is_example,
        ));
    }
    while i < n
        invariant
            0 <= i <= n,
            n == items@.len(),
            ivs == item_views(items@),
            qt == if is_example {
                "example"@
            } else {
                "exercise"@
            },
            out@.len() == i,
            question_views(out@) == questions_of_items(
                ivs.take(i as int),
                file_id@,
                page,
                qt,
                is_example,
            ),
        decreases n - i,
    {
        let q = build_question(&items[i], file_id, page, is_example, i);
        let ghost prev = question_views(out@);
        out.push(q);
        proof {
            let new_items = ivs.take(i + 1);
            assert(new_items[i as int] == items@[i as int]@);
            assert(question_views(out@) =~= prev.push(out@.last()@));
            assert(out@.last()@ == question_of_item(
                new_items[i as int],
                file_id@,
                page,
                qt,
                is_example,
                i as int,
            ));
            assert forall|j: int|
                0 <= j < i + 1 implies question_views(out@)[j] == questions_of_items(
                new_items,
                file_id@,
                page,
                qt,
                is_example,
            )[j] by {
                if j < i {
                    assert(question_views(out@)[j] == prev[j]);
                    assert(prev[j] == questions_of_items(
                        ivs.take(i as int),
                        file_id@,
                        page,
                        qt,
                        is_example,
                    )[j]);
                    assert(new_items[j] == ivs.take(i as int)[j]);
                }
            }
            assert(question_views(out@) =~= questions_of_items(
                new_items,
                file_id@,
                page,
                qt,
                is_example,
            ));
        }
        i += 1;
    }
    proof {
        assert(ivs.take(n as int) =~= ivs);
    }
    Ok(out)
}

/// What parsing a raw response yields: `None` on any failure (no JSON
/// payload, or one that misses the schema), the produced questions
/// otherwise.
pub open spec fn parsed_questions(
    text: Seq<char>,
    file_id: Seq<char>,
    page: u32,
    is_example: bool,
) -> Option<Seq<QuestionView>> {
    match json_of(extract_json_spec(text)) {
        None => None,
        Some(j) => match payload_items(
            j,
            if is_example {
                "examples"@
            } else {
                "exercises"@
            },
        ) {
            None => None,
            Some(items) => Some(
                questions_of_items(
                    items,
                    file_id,
                    page,
                    if is_example {
                        "example"@
                    } else {
                        "exercise"@
                    },
                    is_example,
                ),
            ),
        },
    }
}

/// Parses a worked-example response: cuts the JSON payload out of the
/// raw text, deserializes it strictly against the `examples` schema and
/// produces `example` questions carrying their original answers.
pub fn parse_examples_response(json_str: &str, file_id: &str, page: u32) -> (r: Result<
    Vec<Question>,
    ParseError,
>)
    ensures
        r is Ok <==> parsed_questions(json_str@, file_id@, page, true) is Some,
        r matches Ok(qs) ==> parsed_questions(json_str@, file_id@, page, true) == Some(
            question_views(qs@),
        ),
        match json_of(extract_json_spec(json_str@)) {
            None => r == Err::<Vec<Question>, ParseError>(ParseError::Syntax),
            Some(j) => match payload_items(j, "examples"@) {
                None => r == Err::<Vec<Question>, ParseError>(ParseError::Schema),
                Some(items) => r matches Ok(qs) && question_views(qs@) == questions_of_items(
                    items,
                    file_id@,
                    page,
                    "example"@,
                    true,
                ),
            },
        },
{
    parse_response(json_str, file_id, page, true)
}

/// Parses an exercise response: like [`parse_examples_response`] but
/// against the `exercises` schema, producing `exercise` questions whose
/// answers were generated (`has_original_answer` is false).
pub fn parse_exercises_response(json_str: &str, file_id: &str, page: u32) -> (r: Result<
    Vec<Question>,
    ParseError,
>)
    ensures
        r is Ok <==> parsed_questions(json_str@, file_id@, page, false) is Some,
        r matches Ok(qs) ==> parsed_questions(json_str@, file_id@, page, false) == Some(
            question_views(qs@),
        ),
        match json_of(extract_json_spec(json_str@)) {
            None => r == Err::<Vec<Question>, ParseError>(ParseError::Syntax),
            Some(j) => match payload_items(j, "exercises"@) {
                None => r == Err::<Vec<Question>, ParseError>(ParseError::Schema),
                Some(items) => r matches Ok(qs) && question_views(qs@) == questions_of_items(
                    items,
                    file_id@,
                    page,
                    "exercise"@,
                    false,
                ),
            },
        },
{
    parse_response(json_str, file_id, page, false)
}

/// Index of the first question carrying `id`, if any.
pub open spec fn question_idx(qs: Seq<QuestionView>, id: Seq<char>) -> Option<int>
    decreases qs.len(),
{
    if qs.len() == 0 {
        None
    } else if qs[0].id == id {
        Some(0)
    } else {
        match question_idx(qs.drop_first(), id) {
            None => None,
            Some(i) => Some(i + 1),
        }
    }
}

proof fn lemma_question_idx(qs: Seq<QuestionView>, id: Seq<char>)
    ensures
        match question_idx(qs, id) {
            Some(i) => 0 <= i < qs.len() && qs[i].id == id && forall|j: int|
                0 <= j < i ==> (#[trigger] qs[j]).id != id,
            None => forall|j: int| 0 <= j < qs.len() ==> (#[trigger] qs[j]).id != id,
        },
    decreases qs.len(),
{
    if qs.len() > 0 && qs[0].id != id {
        let rest = qs.drop_first();
        lemma_question_idx(rest, id);
        assert(forall|j: int| 0 <= j < rest.len() ==> #[trigger] rest[j] == qs[j + 1]);
        match question_idx(rest, id) {
            Some(i) => {
                assert(qs[i + 1] == rest[i]);
                assert forall|j: int| 0 <= j < i + 1 implies (#[trigger] qs[j]).id != id by {
                    if j > 0 {
                        assert(qs[j] == rest[j - 1]);
                    }
                }
            },
            None => {
                assert forall|j: int| 0 <= j < qs.len() implies (#[trigger] qs[j]).id != id by {
                    if j > 0 {
                        assert(qs[j] == rest[j - 1]);
                    }
                }
            },
        }
    }
}

/// The first question carrying the id `id`, if any; questions produced
/// by one run have pairwise distinct ids, so the first is the only one.
pub fn find_question<'a>(questions: &'a Vec<Question>, id: &str) -> (r: Option<&'a Question>)
    ensures
        match question_idx(question_views(questions@), id@) {
            Some(i) => r matches Some(q) && q@ == question_views(questions@)[i],
            None => r is None,
        },
{
    let ghost qvs = question_views(questions@);
    let n = questions.len();
    let mut i: usize = 0;
    while i < n
        invariant
            0 <= i <= n,
            n == questions@.len(),
            qvs == question_views(questions@),
            forall|j: int| 0 <= j < i ==> (#[trigger] qvs[j]).id != id@,
        decreases n - i,
    {
        if crate::text::str_eq(questions[i].id.as_str(), id) {
            proof {
                assert(qvs[i as int].id == id@);
                lemma_question_idx(qvs, id@);
                match question_idx(qvs, id@) {
                    Some(k) => {
                        if k < i as int {
                            assert(qvs[k].id != id@);
                        }
                        if k > i as int {
                            assert(qvs[i as int].id != id@);
                        }
                    },
                    None => {
                        assert(qvs[i as int].id != id@);
                    },
                }
            }
            return Some(&questions[i]);
        }
        i += 1;
    }
    proof {
        lemma_question_idx(qvs, id@);
        if question_idx(qvs, id@) is Some {
            let k = question_idx(qvs, id@)->Some_0;
            assert(qvs[k].id == id@);
        }
    }
    None
}

} // verus!
