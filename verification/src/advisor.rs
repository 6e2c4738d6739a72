//! Model discovery and reply handling for the optional folder advisor.
//!
//! The host performs the HTTP requests; this module decides which endpoints
//! to query and in what order, reads model lists out of the JSON replies,
//! builds the request body that asks a provider about a folder, and
//! extracts the advisor's text from each provider's reply format.

use vstd::prelude::*;
use crate::json::{
    as_array, as_str, get, get_spec, json_fields, json_value, json_values, opt_array, opt_get, opt_str, push_field,
    push_item, Json, JsonValue,
};
use crate::text::{
    chars_of, concat, ends_with, occurs_at, occurs_at_exec, seq_eq, starts_with,
    starts_with_exec, string_of, trim_bounds, trim_end_char, trim_end_char_exec, trim_exec,
    trim_ws,
};

verus! {

/// The advisor's structured answer about one folder.
#[derive(Debug, Clone)]
pub struct AdvisorResponse {
    pub what: String,
    pub category: String,
    pub safe_to_delete: bool,
    pub risk: String,
    pub action: String,
    pub reasoning: String,
    pub needs_inspection: bool,
    pub suggested_scaffold: Option<String>,
}

/// A configured model endpoint.
#[derive(Clone, Debug)]
pub enum Provider {
    OpenAIResponses { api_key: String, model: String, base_url: String },
    OpenAI { api_key: String, model: String, base_url: String },
    Anthropic { api_key: String, model: String, base_url: String },
    Ollama { base_url: String, model: String },
    Gemini { api_key: String, model: String, base_url: String },
}

/// A model offered by an endpoint.
#[derive(Debug, Clone)]
pub struct ModelOption {
    pub id: String,
    pub label: Option<String>,
}

/// An error with its message.
#[derive(Debug)]
pub struct AdvisorError {
    pub message: String,
}

/// Mathematical value of a [`ModelOption`].
pub struct OptionModel {
    pub id: Seq<char>,
    pub label: Option<Seq<char>>,
}

impl View for ModelOption {
    type V = OptionModel;

    open spec fn view(&self) -> OptionModel {
        OptionModel {
            id: self.id@,
            label: match self.label {
                Some(l) => Some(l@),
                None => None,
            },
        }
    }
}

pub open spec fn options_view(v: Seq<ModelOption>) -> Seq<OptionModel> {
    v.map_values(|m: ModelOption| m@)
}

fn error(msg: &str) -> (e: AdvisorError)
    ensures
        e.message@ == msg@,
{
    AdvisorError { message: String::from_str(msg) }
}

// ───────────────────────────── model lists ─────────────────────────────

/// A model from an id member and an optional label member: the id must be a
/// string that is not blank once trimmed; the label is kept, trimmed, when
/// it is a string that is neither blank nor the id.
pub open spec fn model_option_spec(id: Option<Json>, label: Option<Json>) -> Option<OptionModel> {
    match opt_str(id) {
        None => None,
        Some(s) => {
            let t = trim_ws(s);
            if t.len() == 0 {
                None
            } else {
                Some(
                    OptionModel {
                        id: t,
                        label: match opt_str(label) {
                            Some(l) => if trim_ws(l).len() > 0 && trim_ws(l) != t {
                                Some(trim_ws(l))
                            } else {
                                None
                            },
                            None => None,
                        },
                    },
                )
            }
        },
    }
}

fn opt_ref_str(j: Option<&Json>) -> (r: Option<Vec<char>>)
    ensures
        match r {
            Some(v) => opt_str(match j { Some(x) => Some(*x), None => None }) == Some(v@),
            None => opt_str(match j { Some(x) => Some(*x), None => None }) is None,
        },
{
    match j {
        Some(x) => match as_str(x) {
            Some(s) => Some(chars_of(s.as_str())),
            None => None,
        },
        None => None,
    }
}

pub open spec fn deref_opt(j: Option<&Json>) -> Option<Json> {
    match j {
        Some(x) => Some(*x),
        None => None,
    }
}

fn model_option(id: Option<&Json>, label: Option<&Json>) -> (r: Option<ModelOption>)
    ensures
        match r {
            Some(m) => model_option_spec(deref_opt(id), deref_opt(label)) == Some(m@),
            None => model_option_spec(deref_opt(id), deref_opt(label)) is None,
        },
{
    let id_chars = match opt_ref_str(id) {
        Some(v) => trim_exec(&v),
        None => return None,
    };
    if id_chars.len() == 0 {
        return None;
    }
    let label_s = match opt_ref_str(label) {
        Some(l) => {
            let t = trim_exec(&l);
            if t.len() > 0 && !seq_eq(&t, &id_chars) {
                Some(string_of(&t))
            } else {
                None
            }
        },
        None => None,
    };
    let m = ModelOption { id: string_of(&id_chars), label: label_s };
    assert(m@.label == model_option_spec(deref_opt(id), deref_opt(label)).unwrap().label) by {
        if opt_str(deref_opt(label)) is Some {
            let l = opt_str(deref_opt(label)).unwrap();
            if trim_ws(l).len() > 0 && trim_ws(l) != id_chars@ {
                assert(!(trim_ws(l) =~= id_chars@));
            }
        }
    }
    Some(m)
}

/// Keeps the first model of each id, in order.
pub open spec fn dedupe_spec(ms: Seq<OptionModel>) -> Seq<OptionModel>
    decreases ms.len(),
{
    if ms.len() == 0 {
        Seq::empty()
    } else {
        let init = ms.drop_last();
        if exists|j: int| 0 <= j < init.len() && (#[trigger] init[j]).id == ms.last().id {
            dedupe_spec(init)
        } else {
            dedupe_spec(init).push(ms.last())
        }
    }
}

/// Keeps the first model of each id, in order.
pub fn dedupe_models(models: Vec<ModelOption>) -> (r: Vec<ModelOption>)
    ensures
        options_view(r@) == dedupe_spec(options_view(models@)),
{
    let ghost mv = options_view(models@);
    let mut r: Vec<ModelOption> = Vec::new();
    let mut i: usize = 0;
    while i < models.len()
        invariant
            i <= models@.len(),
            mv == options_view(models@),
            options_view(r@) == dedupe_spec(mv.take(i as int)),
        decreases models.len() - i,
    {
        let id = chars_of(models[i].id.as_str());
        let mut seen = false;
        let mut j: usize = 0;
        while j < i
            invariant
                j <= i < models@.len(),
                mv == options_view(models@),
                id@ == mv[i as int].id,
                seen <==> exists|k: int| 0 <= k < j && (#[trigger] mv[k]).id == mv[i as int].id,
            decreases i - j,
        {
            if seq_eq(&chars_of(models[j].id.as_str()), &id) {
                assert(mv[j as int].id =~= mv[i as int].id);
                seen = true;
            }
            j = j + 1;
        }
        let ghost init = mv.take(i as int);
        assert(mv.take(i + 1).drop_last() =~= init);
        assert(mv.take(i + 1).last() == mv[i as int]);
        assert(seen <==> exists|k: int| 0 <= k < init.len() && (#[trigger] init[k]).id == mv[i as int].id) by {
            if seen {
                let k = choose|k: int| 0 <= k < i && (#[trigger] mv[k]).id == mv[i as int].id;
                assert(init[k] == mv[k]);
            }
            if exists|k: int| 0 <= k < init.len() && (#[trigger] init[k]).id == mv[i as int].id {
                let k = choose|k: int| 0 <= k < init.len() && (#[trigger] init[k]).id == mv[i as int].id;
                assert(init[k] == mv[k]);
            }
        }
        if !seen {
            let m = &models[i];
            let label = match &m.label {
                Some(l) => Some(l.clone()),
                None => None,
            };
            r.push(ModelOption { id: m.id.clone(), label });
            assert(options_view(r@) =~= dedupe_spec(mv.take(i + 1)));
        }
        i = i + 1;
    }
    assert(mv.take(models@.len() as int) =~= mv);
    r
}

/// `ms[i]` is the first model with its id.
#[verifier::opaque]
pub open spec fn first_of_id(ms: Seq<OptionModel>, i: int) -> bool {
    forall|j: int| 0 <= j < i ==> (#[trigger] ms[j]).id != ms[i].id
}

/// `m` is the first model of `ms` with its id.
pub open spec fn is_first_of_its_id(ms: Seq<OptionModel>, m: OptionModel) -> bool {
    exists|i: int| 0 <= i < ms.len() && first_of_id(ms, i) && ms[i] == m
}

proof fn lemma_dedupe_firsts(ms: Seq<OptionModel>)
    ensures
        forall|k: int|
            0 <= k < dedupe_spec(ms).len() ==> is_first_of_its_id(ms, #[trigger] dedupe_spec(ms)[k]),
    decreases ms.len(),
{
    if ms.len() > 0 {
        let init = ms.drop_last();
        let last = ms.last();
        lemma_dedupe_firsts(init);
        let r0 = dedupe_spec(init);
        let r = dedupe_spec(ms);
        let seen = exists|j: int| 0 <= j < init.len() && (#[trigger] init[j]).id == last.id;
        let n = ms.len() - 1;
        assert(!seen ==> first_of_id(ms, n)) by {
            reveal(first_of_id);
            if !seen {
                assert forall|j: int| 0 <= j < n implies (#[trigger] ms[j]).id != ms[n].id by {
                    assert(ms[j] == init[j]);
                }
            }
        }
        assert(seen ==> r == r0);
        assert(!seen ==> r == r0.push(last));
        assert forall|k: int| 0 <= k < r.len() implies is_first_of_its_id(ms, #[trigger] r[k]) by {
            if k < r0.len() {
                assert(r[k] == r0[k]);
                assert(is_first_of_its_id(init, r0[k]));
                let i = choose|i: int| 0 <= i < init.len() && first_of_id(init, i) && init[i] == r0[k];
                assert(ms[i] == init[i]);
                assert(first_of_id(ms, i)) by {
                    reveal(first_of_id);
                    assert forall|j: int| 0 <= j < i implies (#[trigger] ms[j]).id != ms[i].id by {
                        assert(ms[j] == init[j]);
                        assert(init[j].id != init[i].id);
                    }
                }
            } else {
                assert(r[k] == ms[n]);
            }
        }
    }
}

proof fn lemma_dedupe_distinct(ms: Seq<OptionModel>)
    ensures
        forall|a: int, b: int|
            0 <= a < b < dedupe_spec(ms).len() ==> (#[trigger] dedupe_spec(ms)[a]).id != (
            #[trigger] dedupe_spec(ms)[b]).id,
    decreases ms.len(),
{
    if ms.len() > 0 {
        let init = ms.drop_last();
        let last = ms.last();
        lemma_dedupe_distinct(init);
        lemma_dedupe_firsts(init);
        let r0 = dedupe_spec(init);
        let r = dedupe_spec(ms);
        if !exists|j: int| 0 <= j < init.len() && (#[trigger] init[j]).id == last.id {
            assert forall|a: int, b: int| 0 <= a < b < r.len() implies (#[trigger] r[a]).id != (
            #[trigger] r[b]).id by {
                assert(r[a] == r0[a]);
                if b == r.len() - 1 {
                    assert(is_first_of_its_id(init, r0[a]));
                    let i = choose|i: int| 0 <= i < init.len() && first_of_id(init, i) && init[i] == r0[a];
                    assert(r[b] == last);
                } else {
                    assert(r[b] == r0[b]);
                }
            }
        }
    }
}

proof fn lemma_dedupe_complete(ms: Seq<OptionModel>)
    ensures
        forall|i: int|
            0 <= i < ms.len() ==> exists|k: int|
                0 <= k < dedupe_spec(ms).len() && (#[trigger] dedupe_spec(ms)[k]).id == (
                #[trigger] ms[i]).id,
    decreases ms.len(),
{
    if ms.len() > 0 {
        let init = ms.drop_last();
        let last = ms.last();
        lemma_dedupe_complete(init);
        let r0 = dedupe_spec(init);
        let r = dedupe_spec(ms);
        assert forall|i: int| 0 <= i < ms.len() implies exists|k: int|
            0 <= k < r.len() && (#[trigger] r[k]).id == (#[trigger] ms[i]).id by {
            if exists|j: int| 0 <= j < init.len() && (#[trigger] init[j]).id == last.id {
                let j = if i < init.len() {
                    i
                } else {
                    choose|j: int| 0 <= j < init.len() && (#[trigger] init[j]).id == last.id
                };
                assert(init[j].id == ms[i].id);
                let k = choose|k: int| 0 <= k < r0.len() && (#[trigger] r0[k]).id == (#[trigger] init[j]).id;
                assert(r[k] == r0[k]);
            } else {
                if i < init.len() {
                    assert(ms[i] == init[i]);
                    let k = choose|k: int| 0 <= k < r0.len() && (#[trigger] r0[k]).id == (#[trigger] init[i]).id;
                    assert(r[k] == r0[k]);
                } else {
                    assert(r[r.len() - 1] == ms[i]);
                }
            }
        }
    }
}

/// De-duplication leaves pairwise distinct ids, loses no id, and keeps of
/// each id the first model that carries it.
pub proof fn lemma_dedupe_distinct_complete(ms: Seq<OptionModel>)
    ensures
        forall|a: int, b: int|
            0 <= a < b < dedupe_spec(ms).len() ==> (#[trigger] dedupe_spec(ms)[a]).id != (
            #[trigger] dedupe_spec(ms)[b]).id,
        forall|i: int|
            0 <= i < ms.len() ==> exists|k: int|
                0 <= k < dedupe_spec(ms).len() && (#[trigger] dedupe_spec(ms)[k]).id == (
                #[trigger] ms[i]).id,
        forall|k: int|
            0 <= k < dedupe_spec(ms).len() ==> is_first_of_its_id(ms, #[trigger] dedupe_spec(ms)[k]),
{
    lemma_dedupe_distinct(ms);
    lemma_dedupe_complete(ms);
    lemma_dedupe_firsts(ms);
}

/// The models an entry list yields under `f`, in order.
pub open spec fn collect_options(entries: Seq<Json>, f: spec_fn(Json) -> Option<OptionModel>) -> Seq<OptionModel>
    decreases entries.len(),
{
    if entries.len() == 0 {
        Seq::empty()
    } else {
        match f(entries.last()) {
            Some(m) => collect_options(entries.drop_last(), f).push(m),
            None => collect_options(entries.drop_last(), f),
        }
    }
}

/// Sources of model lists, in the order they are tried.
#[derive(Debug, Clone, Copy, PartialEq, Eq, Structural)]
pub enum ModelSource {
    OpenAI,
    Anthropic,
    Gemini,
    Ollama,
}

pub open spec fn has_generate_content(entry: Json) -> bool {
    match opt_array(get_spec(entry, "supportedGenerationMethods"@)) {
        Some(methods) => exists|k: int|
            0 <= k < methods.len() && opt_str(Some(#[trigger] methods[k])) == Some("generateContent"@),
        None => false,
    }
}

/// `s` without a leading `models/`.
pub open spec fn strip_models_prefix(s: Seq<char>) -> Seq<char> {
    if starts_with(s, "models/"@) {
        s.skip(7)
    } else {
        s
    }
}

/// The model an entry of a source's list stands for.
pub open spec fn entry_option(source: ModelSource, entry: Json) -> Option<OptionModel> {
    match source {
        ModelSource::OpenAI | ModelSource::Anthropic => model_option_spec(
            get_spec(entry, "id"@),
            get_spec(entry, "display_name"@),
        ),
        ModelSource::Gemini => if has_generate_content(entry) {
            match model_option_spec(get_spec(entry, "name"@), get_spec(entry, "displayName"@)) {
                Some(m) => Some(OptionModel { id: strip_models_prefix(m.id), label: m.label }),
                None => None,
            }
        } else {
            None
        },
        ModelSource::Ollama => model_option_spec(
            match get_spec(entry, "name"@) {
                Some(n) => Some(n),
                None => get_spec(entry, "model"@),
            },
            None,
        ),
    }
}

/// The member holding a source's model list.
pub open spec fn list_member(source: ModelSource) -> Seq<char> {
    match source {
        ModelSource::OpenAI | ModelSource::Anthropic => "data"@,
        _ => "models"@,
    }
}

pub open spec fn missing_list_message(source: ModelSource) -> Seq<char> {
    match source {
        ModelSource::OpenAI | ModelSource::Anthropic => "missing data array"@,
        _ => "missing models array"@,
    }
}

/// The models a source's reply lists, first of each id kept, or the error
/// when the reply has no list.
pub open spec fn models_result(source: ModelSource, reply: Json) -> Result<Seq<OptionModel>, Seq<char>> {
    match opt_array(get_spec(reply, list_member(source))) {
        Some(entries) => Ok(dedupe_spec(collect_options(entries, |e: Json| entry_option(source, e)))),
        None => Err(missing_list_message(source)),
    }
}

pub open spec fn result_matches(r: Result<Vec<ModelOption>, AdvisorError>, s: Result<Seq<OptionModel>, Seq<char>>) -> bool {
    match (r, s) {
        (Ok(v), Ok(m)) => options_view(v@) == m,
        (Err(e), Err(msg)) => e.message@ == msg,
        _ => false,
    }
}

fn has_generate_content_exec(entry: &Json) -> (r: bool)
    ensures
        r == has_generate_content(*entry),
{
    let methods = match get(entry, "supportedGenerationMethods") {
        Some(m) => match as_array(m) {
            Some(a) => a,
            None => return false,
        },
        None => return false,
    };
    let want = chars_of("generateContent");
    let mut k: usize = 0;
    while k < methods.len()
        invariant
            k <= methods@.len(),
            want@ == "generateContent"@,
            opt_array(get_spec(*entry, "supportedGenerationMethods"@)) == Some(methods@),
            forall|m: int| 0 <= m < k ==> opt_str(Some(#[trigger] methods@[m])) != Some("generateContent"@),
        decreases methods.len() - k,
    {
        match as_str(&methods[k]) {
            Some(s) => {
                if seq_eq(&chars_of(s.as_str()), &want) {
                    assert(opt_str(Some(methods@[k as int])) == Some("generateContent"@));
                    return true;
                }
            },
            None => {},
        }
        k = k + 1;
    }
    false
}

fn entry_option_exec(source: ModelSource, entry: &Json) -> (r: Option<ModelOption>)
    ensures
        match r {
            Some(m) => entry_option(source, *entry) == Some(m@),
            None => entry_option(source, *entry) is None,
        },
{
    match source {
        ModelSource::OpenAI | ModelSource::Anthropic => model_option(
            get(entry, "id"),
            get(entry, "display_name"),
        ),
        ModelSource::Gemini => {
            if !has_generate_content_exec(entry) {
                return None;
            }
            match model_option(get(entry, "name"), get(entry, "displayName")) {
                Some(m) => {
                    let id = chars_of(m.id.as_str());
                    let prefix = chars_of("models/");
                    if starts_with_exec(&id, &prefix) {
                        proof {
                            reveal_strlit("models/");
                        }
                        let rest = crate::text::slice_of(&id, 7, id.len());
                        Some(ModelOption { id: string_of(&rest), label: m.label })
                    } else {
                        Some(m)
                    }
                },
                None => None,
            }
        },
        ModelSource::Ollama => {
            let id = match get(entry, "name") {
                Some(n) => Some(n),
                None => get(entry, "model"),
            };
            model_option(id, None)
        },
    }
}

/// Reads the model list out of a source's reply: the entries that name a
/// model, first of each id kept; an error when the list member is missing.
pub fn parse_models(source: ModelSource, reply: &Json) -> (r: Result<Vec<ModelOption>, AdvisorError>)
    ensures
        result_matches(r, models_result(source, *reply)),
{
    let member = match source {
        ModelSource::OpenAI | ModelSource::Anthropic => "data",
        _ => "models",
    };
    let entries = match get(reply, member) {
        Some(v) => match as_array(v) {
            Some(a) => a,
            None => {
                return Err(error(match source {
                    ModelSource::OpenAI | ModelSource::Anthropic => "missing data array",
                    _ => "missing models array",
                }));
            },
        },
        None => {
            return Err(error(match source {
                ModelSource::OpenAI | ModelSource::Anthropic => "missing data array",
                _ => "missing models array",
            }));
        },
    };
    let ghost f = |e: Json| entry_option(source, e);
    let mut out: Vec<ModelOption> = Vec::new();
    let mut i: usize = 0;
    while i < entries.len()
        invariant
            i <= entries@.len(),
            f == (|e: Json| entry_option(source, e)),
            options_view(out@) == collect_options(entries@.take(i as int), f),
        decreases entries.len() - i,
    {
        assert(entries@.take(i + 1).drop_last() =~= entries@.take(i as int));
        assert(entries@.take(i + 1).last() == entries@[i as int]);
        match entry_option_exec(source, &entries[i]) {
            Some(m) => {
                out.push(m);
                assert(options_view(out@) =~= collect_options(entries@.take(i + 1), f));
            },
            None => {},
        }
        i = i + 1;
    }
    assert(entries@.take(entries@.len() as int) =~= entries@);
    Ok(dedupe_models(out))
}

/// Model list of an OpenAI-style `/models` reply.
pub fn parse_openai_models(value: &Json) -> (r: Result<Vec<ModelOption>, AdvisorError>)
    ensures
        result_matches(r, models_result(ModelSource::OpenAI, *value)),
{
    parse_models(ModelSource::OpenAI, value)
}

/// Model list of an Anthropic `/v1/models` reply.
pub fn parse_anthropic_models(value: &Json) -> (r: Result<Vec<ModelOption>, AdvisorError>)
    ensures
        result_matches(r, models_result(ModelSource::Anthropic, *value)),
{
    parse_models(ModelSource::Anthropic, value)
}

/// Model list of a Gemini `/v1beta/models` reply: only models that support
/// `generateContent`, without the `models/` prefix.
pub fn parse_gemini_models(value: &Json) -> (r: Result<Vec<ModelOption>, AdvisorError>)
    ensures
        result_matches(r, models_result(ModelSource::Gemini, *value)),
{
    parse_models(ModelSource::Gemini, value)
}

/// Model list of an Ollama `/api/tags` reply.
pub fn parse_ollama_models(value: &Json) -> (r: Result<Vec<ModelOption>, AdvisorError>)
    ensures
        result_matches(r, models_result(ModelSource::Ollama, *value)),
{
    parse_models(ModelSource::Ollama, value)
}

// ───────────────────────────── code fences ─────────────────────────────

/// `s` trimmed, without a leading `` ```json `` or `` ``` `` and a trailing
/// `` ``` ``, trimmed again.
pub open spec fn strip_codefence_spec(s: Seq<char>) -> Seq<char> {
    let t0 = trim_ws(s);
    let t1 = if starts_with(t0, "```json"@) { t0.skip(7) } else { t0 };
    let t2 = if starts_with(t1, "```"@) { t1.skip(3) } else { t1 };
    let t3 = if ends_with(t2, "```"@) { t2.take(t2.len() - 3) } else { t2 };
    trim_ws(t3)
}

proof fn lemma_occurs_in_window(v: Seq<char>, pat: Seq<char>, a: int, b: int, i: int)
    requires
        0 <= a <= i,
        i + pat.len() <= b <= v.len(),
    ensures
        occurs_at(v.subrange(a, b), pat, i - a) == occurs_at(v, pat, i),
{
    assert(v.subrange(a, b).subrange(i - a, i - a + pat.len()) =~= v.subrange(i, i + pat.len()));
}

/// Removes a Markdown code fence around a reply.
#[verifier::spinoff_prover]
pub fn strip_codefence(s: &str) -> (r: &str)
    ensures
        r@ == strip_codefence_spec(s@),
{
    let v = chars_of(s);
    let ghost w = v@;
    let (mut a, mut b) = trim_bounds(&v, 0, v.len());
    assert(w.subrange(0, w.len() as int) =~= w);
    let fence_json = chars_of("```json");
    let fence = chars_of("```");
    proof {
        reveal_strlit("```json");
        reveal_strlit("```");
    }
    let ghost t0 = w.subrange(a as int, b as int);
    let sj = b - a >= 7 && occurs_at_exec(&v, &fence_json, a);
    proof {
        if a + 7 <= b {
            lemma_occurs_in_window(w, fence_json@, a as int, b as int, a as int);
        }
    }
    assert(sj == starts_with(t0, "```json"@));
    if sj {
        a = a + 7;
        assert(w.subrange(a as int, b as int) =~= t0.skip(7));
    }
    let ghost t1 = w.subrange(a as int, b as int);
    let sf = b - a >= 3 && occurs_at_exec(&v, &fence, a);
    proof {
        if a + 3 <= b {
            lemma_occurs_in_window(w, fence@, a as int, b as int, a as int);
        }
    }
    assert(sf == starts_with(t1, "```"@));
    if sf {
        a = a + 3;
        assert(w.subrange(a as int, b as int) =~= t1.skip(3));
    }
    let ghost t2 = w.subrange(a as int, b as int);
    let ef = b - a >= 3 && occurs_at_exec(&v, &fence, b - 3);
    proof {
        if a + 3 <= b {
            lemma_occurs_in_window(w, fence@, a as int, b as int, b - 3);
        }
    }
    assert(ef == ends_with(t2, "```"@));
    if ef {
        b = b - 3;
        assert(w.subrange(a as int, b as int) =~= t2.take(t2.len() - 3));
    }
    let (a2, b2) = trim_bounds(&v, a, b);
    s.substring_char(a2, b2)
}

// ───────────────────────────── requests ─────────────────────────────

/// How a request authenticates.
#[derive(Debug, Clone)]
pub enum Auth {
    Unauthenticated,
    /// `Authorization: Bearer <key>`.
    Bearer(String),
    /// `x-api-key: <key>` with `anthropic-version: 2023-06-01`.
    AnthropicKey(String),
    /// A `key=<key>` query parameter.
    QueryKey(String),
}

pub enum AuthModel {
    Unauthenticated,
    Bearer(Seq<char>),
    AnthropicKey(Seq<char>),
    QueryKey(Seq<char>),
}

impl View for Auth {
    type V = AuthModel;

    open spec fn view(&self) -> AuthModel {
        match self {
            Auth::Unauthenticated => AuthModel::Unauthenticated,
            Auth::Bearer(k) => AuthModel::Bearer(k@),
            Auth::AnthropicKey(k) => AuthModel::AnthropicKey(k@),
            Auth::QueryKey(k) => AuthModel::QueryKey(k@),
        }
    }
}

/// Where an advisor request goes and how it authenticates.
#[derive(Debug)]
pub struct Endpoint {
    pub url: String,
    pub auth: Auth,
}

/// The URL and authentication of a provider's chat endpoint (the base URL
/// loses its trailing `/`).
pub open spec fn advise_endpoint_spec(p: Provider) -> (Seq<char>, AuthModel) {
    match p {
        Provider::OpenAIResponses { api_key, base_url, .. } => (
            trim_end_char(base_url@, '/') + "/responses"@,
            AuthModel::Bearer(api_key@),
        ),
        Provider::OpenAI { api_key, base_url, .. } => (
            trim_end_char(base_url@, '/') + "/chat/completions"@,
            AuthModel::Bearer(api_key@),
        ),
        Provider::Anthropic { api_key, base_url, .. } => (
            trim_end_char(base_url@, '/') + "/v1/messages"@,
            AuthModel::AnthropicKey(api_key@),
        ),
        Provider::Gemini { api_key, model, base_url } => (
            trim_end_char(base_url@, '/') + "/v1beta/models/"@ + model@ + ":generateContent?key="@
                + api_key@,
            AuthModel::Unauthenticated,
        ),
        Provider::Ollama { base_url, .. } => (
            trim_end_char(base_url@, '/') + "/api/chat"@,
            AuthModel::Unauthenticated,
        ),
    }
}

fn base_plus(base_url: &String, tail: &str) -> (r: String)
    ensures
        r@ == trim_end_char(base_url@, '/') + tail@,
{
    let b = trim_end_char_exec(&chars_of(base_url.as_str()), '/');
    string_of(&concat(&b, &chars_of(tail)))
}

/// Where a provider's chat request goes.
pub fn advise_endpoint(provider: &Provider) -> (e: Endpoint)
    ensures
        (e.url@, e.auth@) == advise_endpoint_spec(*provider),
{
    match provider {
        Provider::OpenAIResponses { api_key, base_url, .. } => Endpoint {
            url: base_plus(base_url, "/responses"),
            auth: Auth::Bearer(api_key.clone()),
        },
        Provider::OpenAI { api_key, base_url, .. } => Endpoint {
            url: base_plus(base_url, "/chat/completions"),
            auth: Auth::Bearer(api_key.clone()),
        },
        Provider::Anthropic { api_key, base_url, .. } => Endpoint {
            url: base_plus(base_url, "/v1/messages"),
            auth: Auth::AnthropicKey(api_key.clone()),
        },
        Provider::Gemini { api_key, model, base_url } => {
            let head = base_plus(base_url, "/v1beta/models/");
            let a = concat(&chars_of(head.as_str()), &chars_of(model.as_str()));
            let b = concat(&a, &chars_of(":generateContent?key="));
            let c = concat(&b, &chars_of(api_key.as_str()));
            Endpoint { url: string_of(&c), auth: Auth::Unauthenticated }
        },
        Provider::Ollama { base_url, .. } => Endpoint {
            url: base_plus(base_url, "/api/chat"),
            auth: Auth::Unauthenticated,
        },
    }
}

// ───────────────────────────── request bodies ─────────────────────────────

/// A chat message: `{"role": role, "content": content}`.
pub open spec fn message_value(role: Seq<char>, content: Seq<char>) -> JsonValue {
    JsonValue::Object(seq![("role"@, JsonValue::Str(role)), ("content"@, JsonValue::Str(content))])
}

/// A Gemini part: `{"text": text}`.
pub open spec fn text_part_value(text: Seq<char>) -> JsonValue {
    JsonValue::Object(seq![("text"@, JsonValue::Str(text))])
}

/// The body of the request that asks `p` about a folder: the instructions
/// `system` and the folder's description `prompt`, in the provider's format,
/// and nothing else.
pub open spec fn request_body_spec(p: Provider, system: Seq<char>, prompt: Seq<char>) -> JsonValue {
    match p {
        Provider::OpenAIResponses { model, .. } => JsonValue::Object(
            seq![
                ("model"@, JsonValue::Str(model@)),
                ("instructions"@, JsonValue::Str(system)),
                ("input"@, JsonValue::Str(prompt)),
                ("store"@, JsonValue::Bool(false)),
            ],
        ),
        Provider::OpenAI { model, .. } => JsonValue::Object(
            seq![
                ("model"@, JsonValue::Str(model@)),
                ("response_format"@, JsonValue::Object(seq![("type"@, JsonValue::Str("json_object"@))])),
                ("messages"@, JsonValue::Array(seq![message_value("system"@, system), message_value("user"@, prompt)])),
            ],
        ),
        Provider::Anthropic { model, .. } => JsonValue::Object(
            seq![
                ("model"@, JsonValue::Str(model@)),
                ("max_tokens"@, JsonValue::Number(Some(2048u64))),
                ("system"@, JsonValue::Str(system)),
                ("messages"@, JsonValue::Array(seq![message_value("user"@, prompt)])),
            ],
        ),
        Provider::Gemini { .. } => JsonValue::Object(
            seq![
                ("systemInstruction"@, JsonValue::Object(seq![("parts"@, JsonValue::Array(seq![text_part_value(system)]))])),
                (
                    "contents"@,
                    JsonValue::Array(
                        seq![
                            JsonValue::Object(
                                seq![
                                    ("role"@, JsonValue::Str("user"@)),
                                    ("parts"@, JsonValue::Array(seq![text_part_value(prompt)])),
                                ],
                            ),
                        ],
                    ),
                ),
                (
                    "generationConfig"@,
                    JsonValue::Object(
                        seq![
                            ("responseMimeType"@, JsonValue::Str("application/json"@)),
                            ("temperature"@, JsonValue::NumberText("0.2"@)),
                        ],
                    ),
                ),
            ],
        ),
        Provider::Ollama { model, .. } => JsonValue::Object(
            seq![
                ("model"@, JsonValue::Str(model@)),
                ("format"@, JsonValue::Str("json"@)),
                ("stream"@, JsonValue::Bool(false)),
                ("messages"@, JsonValue::Array(seq![message_value("system"@, system), message_value("user"@, prompt)])),
            ],
        ),
    }
}

fn text_json(s: &str) -> (r: Json)
    ensures
        json_value(r) == JsonValue::Str(s@),
{
    Json::Str(String::from_str(s))
}

fn message_json(role: &str, content: &str) -> (r: Json)
    ensures
        json_value(r) == message_value(role@, content@),
{
    let mut f: Vec<(String, Json)> = Vec::new();
    push_field(&mut f, "role", text_json(role));
    push_field(&mut f, "content", text_json(content));
    assert(json_fields(f@) =~= seq![("role"@, JsonValue::Str(role@)), ("content"@, JsonValue::Str(content@))]);
    Json::Object(f)
}

fn text_part_json(text: &str) -> (r: Json)
    ensures
        json_value(r) == text_part_value(text@),
{
    let mut f: Vec<(String, Json)> = Vec::new();
    push_field(&mut f, "text", text_json(text));
    Json::Object(f)
}

/// The body of the request that asks `provider` about a folder, with the
/// instructions `system` and the folder's description `user_prompt`.
pub fn request_body(provider: &Provider, system: &str, user_prompt: &str) -> (r: Json)
    ensures
        json_value(r) == request_body_spec(*provider, system@, user_prompt@),
{
    let mut f: Vec<(String, Json)> = Vec::new();
    match provider {
        Provider::OpenAIResponses { model, .. } => {
            push_field(&mut f, "model", text_json(model.as_str()));
            push_field(&mut f, "instructions", text_json(system));
            push_field(&mut f, "input", text_json(user_prompt));
            push_field(&mut f, "store", Json::Bool(false));
            assert(json_fields(f@) =~= seq![
                ("model"@, JsonValue::Str(model@)),
                ("instructions"@, JsonValue::Str(system@)),
                ("input"@, JsonValue::Str(user_prompt@)),
                ("store"@, JsonValue::Bool(false)),
            ]);
        },
        Provider::OpenAI { model, .. } => {
            let mut format: Vec<(String, Json)> = Vec::new();
            push_field(&mut format, "type", text_json("json_object"));
            let mut messages: Vec<Json> = Vec::new();
            push_item(&mut messages, message_json("system", system));
            push_item(&mut messages, message_json("user", user_prompt));
            push_field(&mut f, "model", text_json(model.as_str()));
            assert(json_fields(format@) =~= seq![("type"@, JsonValue::Str("json_object"@))]);
            assert(json_values(messages@) =~= seq![message_value("system"@, system@), message_value("user"@, user_prompt@)]);
            push_field(&mut f, "response_format", Json::Object(format));
            push_field(&mut f, "messages", Json::Array(messages));
            assert(json_fields(f@) =~= seq![
                ("model"@, JsonValue::Str(model@)),
                ("response_format"@, JsonValue::Object(seq![("type"@, JsonValue::Str("json_object"@))])),
                ("messages"@, JsonValue::Array(seq![message_value("system"@, system@), message_value("user"@, user_prompt@)])),
            ]);
        },
        Provider::Anthropic { model, .. } => {
            let mut messages: Vec<Json> = Vec::new();
            push_item(&mut messages, message_json("user", user_prompt));
            push_field(&mut f, "model", text_json(model.as_str()));
            push_field(&mut f, "max_tokens", Json::Number(Some(2048)));
            push_field(&mut f, "system", text_json(system));
            assert(json_values(messages@) =~= seq![message_value("user"@, user_prompt@)]);
            push_field(&mut f, "messages", Json::Array(messages));
            assert(json_fields(f@) =~= seq![
                ("model"@, JsonValue::Str(model@)),
                ("max_tokens"@, JsonValue::Number(Some(2048u64))),
                ("system"@, JsonValue::Str(system@)),
                ("messages"@, JsonValue::Array(seq![message_value("user"@, user_prompt@)])),
            ]);
        },
        Provider::Gemini { .. } => {
            let mut sys_parts: Vec<Json> = Vec::new();
            push_item(&mut sys_parts, text_part_json(system));
            let mut sys: Vec<(String, Json)> = Vec::new();
            push_field(&mut sys, "parts", Json::Array(sys_parts));
            let mut parts: Vec<Json> = Vec::new();
            push_item(&mut parts, text_part_json(user_prompt));
            let mut content: Vec<(String, Json)> = Vec::new();
            push_field(&mut content, "role", text_json("user"));
            assert(json_values(parts@) =~= seq![text_part_value(user_prompt@)]);
            push_field(&mut content, "parts", Json::Array(parts));
            assert(json_fields(content@) =~= seq![
                ("role"@, JsonValue::Str("user"@)),
                ("parts"@, JsonValue::Array(seq![text_part_value(user_prompt@)])),
            ]);
            let mut contents: Vec<Json> = Vec::new();
            push_item(&mut contents, Json::Object(content));
            let mut config: Vec<(String, Json)> = Vec::new();
            push_field(&mut config, "responseMimeType", text_json("application/json"));
            push_field(&mut config, "temperature", Json::NumberText(String::from_str("0.2")));
            assert(json_values(sys_parts@) =~= seq![text_part_value(system@)]);
            assert(json_fields(sys@) =~= seq![("parts"@, JsonValue::Array(seq![text_part_value(system@)]))]);
            let ghost content_v = JsonValue::Object(
                seq![
                    ("role"@, JsonValue::Str("user"@)),
                    ("parts"@, JsonValue::Array(seq![text_part_value(user_prompt@)])),
                ],
            );
            assert(json_values(contents@) =~= seq![content_v]);
            let ghost config_v = seq![
                ("responseMimeType"@, JsonValue::Str("application/json"@)),
                ("temperature"@, JsonValue::NumberText("0.2"@)),
            ];
            assert(json_fields(config@) =~= config_v);
            push_field(&mut f, "systemInstruction", Json::Object(sys));
            push_field(&mut f, "contents", Json::Array(contents));
            push_field(&mut f, "generationConfig", Json::Object(config));
            assert(json_fields(f@) =~= seq![
                ("systemInstruction"@, JsonValue::Object(seq![("parts"@, JsonValue::Array(seq![text_part_value(system@)]))])),
                ("contents"@, JsonValue::Array(seq![content_v])),
                ("generationConfig"@, JsonValue::Object(config_v)),
            ]);
        },
        Provider::Ollama { model, .. } => {
            let mut messages: Vec<Json> = Vec::new();
            push_item(&mut messages, message_json("system", system));
            push_item(&mut messages, message_json("user", user_prompt));
            push_field(&mut f, "model", text_json(model.as_str()));
            push_field(&mut f, "format", text_json("json"));
            push_field(&mut f, "stream", Json::Bool(false));
            assert(json_values(messages@) =~= seq![message_value("system"@, system@), message_value("user"@, user_prompt@)]);
            push_field(&mut f, "messages", Json::Array(messages));
            assert(json_fields(f@) =~= seq![
                ("model"@, JsonValue::Str(model@)),
                ("format"@, JsonValue::Str("json"@)),
                ("stream"@, JsonValue::Bool(false)),
                ("messages"@, JsonValue::Array(seq![message_value("system"@, system@), message_value("user"@, user_prompt@)])),
            ]);
        },
    }
    Json::Object(f)
}

// ───────────────────────────── replies ─────────────────────────────

/// Element `i` of an array (`value[i]`; anything else reads as missing).
pub open spec fn opt_index(j: Option<Json>, i: int) -> Option<Json> {
    match j {
        Some(Json::Array(a)) => if 0 <= i < a@.len() {
            Some(a@[i])
        } else {
            None
        },
        _ => None,
    }
}

/// Concatenation of the `text` of every block whose `type` is `"text"`.
pub open spec fn anthropic_text(blocks: Seq<Json>) -> Seq<char>
    decreases blocks.len(),
{
    if blocks.len() == 0 {
        Seq::empty()
    } else {
        let b = blocks.last();
        let piece = if opt_str(get_spec(b, "type"@)) == Some("text"@) {
            match opt_str(get_spec(b, "text"@)) {
                Some(t) => t,
                None => Seq::empty(),
            }
        } else {
            Seq::empty()
        };
        anthropic_text(blocks.drop_last()) + piece
    }
}

pub open spec fn max_tokens_message() -> Seq<char> {
    "anthropic: 没拿到 text block (stop_reason=max_tokens) — 模型在 thinking 阶段被截断, 把 max_tokens 调大重试"@
}

/// The advisor's raw text in a provider's reply, or why there is none.
pub open spec fn reply_text_spec(p: Provider, reply: Json) -> Result<Seq<char>, Seq<char>> {
    let v = Some(reply);
    match p {
        Provider::OpenAIResponses { .. } => match opt_str(opt_get(v, "output_text"@)) {
            Some(t) => Ok(t),
            None => Err("responses: missing output_text"@),
        },
        Provider::OpenAI { .. } => match opt_str(
            opt_get(opt_get(opt_index(opt_get(v, "choices"@), 0), "message"@), "content"@),
        ) {
            Some(t) => Ok(t),
            None => Err("openai: missing message.content"@),
        },
        Provider::Anthropic { .. } => {
            let text = match opt_array(opt_get(v, "content"@)) {
                Some(blocks) => anthropic_text(blocks),
                None => Seq::empty(),
            };
            if trim_ws(text).len() == 0 {
                let stop = match opt_str(opt_get(v, "stop_reason"@)) {
                    Some(s) => s,
                    None => "unknown"@,
                };
                if stop == "max_tokens"@ {
                    Err(max_tokens_message())
                } else {
                    Err("anthropic: 没拿到 text block (stop_reason="@ + stop + ")"@)
                }
            } else {
                Ok(text)
            }
        },
        Provider::Gemini { .. } => match opt_str(
            opt_get(
                opt_index(
                    opt_get(opt_get(opt_index(opt_get(v, "candidates"@), 0), "content"@), "parts"@),
                    0,
                ),
                "text"@,
            ),
        ) {
            Some(t) => Ok(t),
            None => Err("gemini: missing candidates[0].content.parts[0].text"@),
        },
        Provider::Ollama { .. } => match opt_str(opt_get(opt_get(v, "message"@), "content"@)) {
            Some(t) => Ok(t),
            None => Err("ollama: missing message.content"@),
        },
    }
}

fn member<'a>(j: Option<&'a Json>, key: &str) -> (r: Option<&'a Json>)
    ensures
        deref_opt(r) == opt_get(deref_opt(j), key@),
{
    match j {
        Some(x) => get(x, key),
        None => None,
    }
}

fn element<'a>(j: Option<&'a Json>, i: usize) -> (r: Option<&'a Json>)
    ensures
        deref_opt(r) == opt_index(deref_opt(j), i as int),
{
    match j {
        Some(x) => match x {
            Json::Array(a) => if i < a.len() {
                Some(&a[i])
            } else {
                None
            },
            _ => None,
        },
        None => None,
    }
}

fn text_of(j: Option<&Json>, missing: &str) -> (r: Result<String, AdvisorError>)
    ensures
        match opt_str(deref_opt(j)) {
            Some(t) => r matches Ok(s) && s@ == t,
            None => r matches Err(e) && e.message@ == missing@,
        },
{
    match j {
        Some(x) => match as_str(x) {
            Some(s) => Ok(s.clone()),
            None => Err(error(missing)),
        },
        None => Err(error(missing)),
    }
}

fn anthropic_text_exec(blocks: &Vec<Json>) -> (r: Vec<char>)
    ensures
        r@ == anthropic_text(blocks@),
{
    let mut r: Vec<char> = Vec::new();
    let mut i: usize = 0;
    while i < blocks.len()
        invariant
            i <= blocks@.len(),
            r@ == anthropic_text(blocks@.take(i as int)),
        decreases blocks.len() - i,
    {
        assert(blocks@.take(i + 1).drop_last() =~= blocks@.take(i as int));
        assert(blocks@.take(i + 1).last() == blocks@[i as int]);
        let b = &blocks[i];
        let is_text = match get(b, "type") {
            Some(t) => match as_str(t) {
                Some(s) => seq_eq(&chars_of(s.as_str()), &chars_of("text")),
                None => false,
            },
            None => false,
        };
        let piece: Vec<char> = if is_text {
            match get(b, "text") {
                Some(t) => match as_str(t) {
                    Some(s) => chars_of(s.as_str()),
                    None => Vec::new(),
                },
                None => Vec::new(),
            }
        } else {
            Vec::new()
        };
        r = concat(&r, &piece);
        i = i + 1;
    }
    assert(blocks@.take(blocks@.len() as int) =~= blocks@);
    r
}

/// Extracts the advisor's text from a provider's reply. Anthropic replies
/// join the text of all `text` blocks (thinking blocks may come first); an
/// empty text is an error that names the stop reason.
pub fn reply_text(provider: &Provider, reply: &Json) -> (r: Result<String, AdvisorError>)
    ensures
        match reply_text_spec(*provider, *reply) {
            Ok(t) => r matches Ok(s) && s@ == t,
            Err(m) => r matches Err(e) && e.message@ == m,
        },
{
    let v = Some(reply);
    match provider {
        Provider::OpenAIResponses { .. } => text_of(
            member(v, "output_text"),
            "responses: missing output_text",
        ),
        Provider::OpenAI { .. } => text_of(
            member(member(element(member(v, "choices"), 0), "message"), "content"),
            "openai: missing message.content",
        ),
        Provider::Anthropic { .. } => {
            let text: Vec<char> = match member(v, "content") {
                Some(c) => match as_array(c) {
                    Some(blocks) => anthropic_text_exec(blocks),
                    None => Vec::new(),
                },
                None => Vec::new(),
            };
            if trim_exec(&text).len() == 0 {
                let stop: Vec<char> = match member(v, "stop_reason") {
                    Some(s) => match as_str(s) {
                        Some(t) => chars_of(t.as_str()),
                        None => chars_of("unknown"),
                    },
                    None => chars_of("unknown"),
                };
                if seq_eq(&stop, &chars_of("max_tokens")) {
                    Err(
                        error(
                            "anthropic: 没拿到 text block (stop_reason=max_tokens) — 模型在 thinking 阶段被截断, 把 max_tokens 调大重试",
                        ),
                    )
                } else {
                    let m = concat(&chars_of("anthropic: 没拿到 text block (stop_reason="), &stop);
                    let m = concat(&m, &chars_of(")"));
                    Err(AdvisorError { message: string_of(&m) })
                }
            } else {
                Ok(string_of(&text))
            }
        },
        Provider::Gemini { .. } => text_of(
            member(
                element(
                    member(member(element(member(v, "candidates"), 0), "content"), "parts"),
                    0,
                ),
                "text",
            ),
            "gemini: missing candidates[0].content.parts[0].text",
        ),
        Provider::Ollama { .. } => text_of(
            member(member(v, "message"), "content"),
            "ollama: missing message.content",
        ),
    }
}

// ───────────────────────────── model discovery ─────────────────────────────

/// One model-list request.
#[derive(Debug)]
pub struct ModelQuery {
    pub source: ModelSource,
    pub url: String,
    pub auth: Auth,
}

pub open spec fn source_label(s: ModelSource) -> Seq<char> {
    match s {
        ModelSource::OpenAI => "OpenAI /models"@,
        ModelSource::Anthropic => "Anthropic /v1/models"@,
        ModelSource::Gemini => "Gemini /v1beta/models"@,
        ModelSource::Ollama => "Ollama /api/tags"@,
    }
}

pub open spec fn source_path(s: ModelSource) -> Seq<char> {
    match s {
        ModelSource::OpenAI => "/models"@,
        ModelSource::Anthropic => "/v1/models"@,
        ModelSource::Gemini => "/v1beta/models"@,
        ModelSource::Ollama => "/api/tags"@,
    }
}

pub open spec fn source_auth(s: ModelSource, key: Seq<char>) -> AuthModel {
    match s {
        ModelSource::OpenAI => AuthModel::Bearer(key),
        ModelSource::Anthropic => AuthModel::AnthropicKey(key),
        ModelSource::Gemini => AuthModel::QueryKey(key),
        ModelSource::Ollama => AuthModel::Unauthenticated,
    }
}

/// The base URL trimmed and without trailing `/`.
pub open spec fn search_base(base_url: Seq<char>) -> Seq<char> {
    trim_end_char(trim_ws(base_url), '/')
}

/// The API key trimmed; a blank key counts as none.
pub open spec fn search_key(api_key: Option<Seq<char>>) -> Option<Seq<char>> {
    match api_key {
        Some(k) => if trim_ws(k).len() > 0 {
            Some(trim_ws(k))
        } else {
            None
        },
        None => None,
    }
}

/// With a key the OpenAI, Anthropic and Gemini lists are tried before
/// Ollama's; without one only Ollama's.
pub open spec fn search_sources(key: Option<Seq<char>>) -> Seq<ModelSource> {
    if key is Some {
        seq![ModelSource::OpenAI, ModelSource::Anthropic, ModelSource::Gemini, ModelSource::Ollama]
    } else {
        seq![ModelSource::Ollama]
    }
}

/// Labels joined with `sep`.
pub open spec fn join(ls: Seq<Seq<char>>, sep: Seq<char>) -> Seq<char>
    decreases ls.len(),
{
    if ls.len() == 0 {
        Seq::empty()
    } else if ls.len() == 1 {
        ls[0]
    } else {
        join(ls.drop_last(), sep) + sep + ls.last()
    }
}

pub open spec fn all_failed_message(labels: Seq<Seq<char>>) -> Seq<char> {
    "未获取到可用模型列表（已尝试："@ + join(labels, "、"@) + "）"@
}

/// The reply to a query from `source` gives a model list.
pub open spec fn reply_ok(source: ModelSource, reply: Option<Json>) -> bool {
    reply matches Some(j) && models_result(source, j) is Ok
}

/// The first position, from `i` on, whose reply gives a model list.
pub open spec fn first_ok(sources: Seq<ModelSource>, replies: Seq<Option<Json>>, i: int) -> Option<int>
    decreases replies.len() - i,
{
    if i < 0 || i >= replies.len() {
        None
    } else if reply_ok(sources[i], replies[i]) {
        Some(i)
    } else {
        first_ok(sources, replies, i + 1)
    }
}

/// The answer of a search whose sources got the replies `replies`, one per
/// source tried, in order (`None` for a request that failed): the model list
/// of the first reply that gives one; once every source has failed, the
/// error naming them all (and nothing of the replies); no answer while
/// sources remain.
pub open spec fn search_outcome(sources: Seq<ModelSource>, replies: Seq<Option<Json>>) -> Option<
    Result<Seq<OptionModel>, Seq<char>>,
> {
    match first_ok(sources, replies, 0) {
        Some(i) => Some(models_result(sources[i], replies[i]->0)),
        None => if replies.len() >= sources.len() {
            Some(Err(all_failed_message(sources.map_values(|s: ModelSource| source_label(s)))))
        } else {
            None
        },
    }
}

/// A reply as the search records it.
pub open spec fn reply_value(reply: Option<&Json>) -> Option<Json> {
    match reply {
        Some(j) => Some(*j),
        None => None,
    }
}

pub open spec fn query_sources(queries: Seq<ModelQuery>) -> Seq<ModelSource> {
    queries.map_values(|q: ModelQuery| q.source)
}

proof fn lemma_first_ok_at(sources: Seq<ModelSource>, replies: Seq<Option<Json>>, i: int, n: int)
    requires
        0 <= i <= n < replies.len(),
        forall|j: int| 0 <= j < n ==> !reply_ok(sources[j], #[trigger] replies[j]),
        reply_ok(sources[n], replies[n]),
    ensures
        first_ok(sources, replies, i) == Some(n),
    decreases n - i,
{
    if i < n {
        lemma_first_ok_at(sources, replies, i + 1, n);
    }
}

proof fn lemma_first_ok_none(sources: Seq<ModelSource>, replies: Seq<Option<Json>>, i: int)
    requires
        0 <= i <= replies.len(),
        forall|j: int| 0 <= j < replies.len() ==> !reply_ok(sources[j], #[trigger] replies[j]),
    ensures
        first_ok(sources, replies, i) is None,
    decreases replies.len() - i,
{
    if i < replies.len() {
        lemma_first_ok_none(sources, replies, i + 1);
    }
}

/// A search for an endpoint's models: the queries to try in order, the
/// next one, and the labels of those that failed.
pub struct ModelSearch {
    pub queries: Vec<ModelQuery>,
    pub next: usize,
    pub failures: Vec<String>,
    /// The replies recorded so far, in order.
    pub replies: Ghost<Seq<Option<Json>>>,
}

impl ModelSearch {
    /// Some query is still to be tried, and every earlier one failed.
    pub open spec fn wf(&self) -> bool {
        &&& self.next < self.queries@.len()
        &&& self.failures@.len() == self.next
        &&& forall|i: int|
            0 <= i < self.next ==> (#[trigger] self.failures@[i])@ == source_label(
                self.queries@[i].source,
            )
        &&& self.replies@.len() == self.next
        &&& forall|i: int|
            0 <= i < self.next ==> !reply_ok(self.queries@[i].source, #[trigger] self.replies@[i])
    }

    pub open spec fn labels(&self) -> Seq<Seq<char>> {
        self.failures@.map_values(|f: String| f@)
    }

    /// The query to perform now.
    pub fn current(&self) -> (q: &ModelQuery)
        requires
            self.wf(),
        ensures
            *q == self.queries@[self.next as int],
    {
        &self.queries[self.next]
    }

    /// Records the reply to the current query (`None` when the request or
    /// its JSON failed). A reply whose model list reads is the answer; any
    /// other outcome is a failure, and after the last query the answer is
    /// an error listing every failed source.
    pub fn record(&mut self, reply: Option<&Json>) -> (r: Option<Result<Vec<ModelOption>, AdvisorError>>)
        requires
            old(self).wf(),
        ensures
            final(self).queries == old(self).queries,
            final(self).replies@ == old(self).replies@.push(reply_value(reply)),
            match search_outcome(query_sources(final(self).queries@), final(self).replies@) {
                Some(o) => r matches Some(res) && result_matches(res, o),
                None => r is None,
            },
            ({
                let q = old(self).queries@[old(self).next as int];
                if reply is Some && models_result(q.source, *reply.unwrap()) is Ok {
                    &&& r matches Some(res) && result_matches(res, models_result(q.source, *reply.unwrap()))
                    &&& final(self).next == old(self).next
                    &&& final(self).failures == old(self).failures
                } else {
                    &&& final(self).labels() == old(self).labels().push(source_label(q.source))
                    &&& final(self).next == old(self).next + 1
                    &&& if final(self).next == final(self).queries@.len() {
                        r matches Some(Err(e)) && e.message@ == all_failed_message(final(self).labels())
                    } else {
                        r is None && final(self).wf()
                    }
                }
            }),
    {
        let n = self.next;
        assert(n < self.queries.len());
        let source = self.queries[n].source;
        let ghost sources = query_sources(self.queries@);
        proof {
            self.replies = Ghost(self.replies@.push(reply_value(reply)));
        }
        let ghost replies = self.replies@;
        assert(sources[n as int] == source);
        assert forall|j: int| 0 <= j < n implies !reply_ok(sources[j], #[trigger] replies[j]) by {
            assert(replies[j] == old(self).replies@[j]);
        }
        if let Some(j) = reply {
            let parsed = parse_models(source, j);
            if parsed.is_ok() {
                proof {
                    lemma_first_ok_at(sources, replies, 0, n as int);
                }
                return Some(parsed);
            }
        }
        assert(!reply_ok(sources[n as int], replies[n as int]));
        assert forall|j: int| 0 <= j < replies.len() implies !reply_ok(sources[j], #[trigger] replies[j]) by {
            if j < n {
                assert(replies[j] == old(self).replies@[j]);
            }
        }
        proof {
            lemma_first_ok_none(sources, replies, 0);
        }
        let label = match source {
            ModelSource::OpenAI => "OpenAI /models",
            ModelSource::Anthropic => "Anthropic /v1/models",
            ModelSource::Gemini => "Gemini /v1beta/models",
            ModelSource::Ollama => "Ollama /api/tags",
        };
        let ghost old_labels = self.labels();
        self.failures.push(String::from_str(label));
        self.next = n + 1;
        assert(self.labels() =~= old_labels.push(source_label(source)));
        if self.next == self.queries.len() {
            let mut msg = chars_of("未获取到可用模型列表（已尝试：");
            let mut i: usize = 0;
            let ghost ls = self.labels();
            let mut joined: Vec<char> = Vec::new();
            while i < self.failures.len()
                invariant
                    i <= self.failures@.len(),
                    ls == self.labels(),
                    joined@ == join(ls.take(i as int), "、"@),
                decreases self.failures.len() - i,
            {
                let f = chars_of(self.failures[i].as_str());
                assert(ls.take(i + 1).drop_last() =~= ls.take(i as int));
                assert(ls.take(i + 1).last() == f@);
                if i == 0 {
                    joined = f;
                    assert(ls.take(1) =~= seq![f@]);
                } else {
                    joined = concat(&concat(&joined, &chars_of("、")), &f);
                }
                i = i + 1;
            }
            assert(ls.take(ls.len() as int) =~= ls);
            assert(ls =~= sources.map_values(|s: ModelSource| source_label(s)));
            msg = concat(&concat(&msg, &joined), &chars_of("）"));
            return Some(Err(AdvisorError { message: string_of(&msg) }));
        }
        None
    }
}

/// The whole search for an endpoint's models, over the replies the
/// endpoint gives in turn (`None` for a request or JSON that failed). It
/// answers with the first model list that reads, else with the error naming
/// every source once all have failed; it stops at the answer. The second
/// result lists the URLs requested, one per reply used. `None` as the
/// answer means the replies ran out first.
pub fn run_model_search(api_key: Option<&str>, base_url: &str, replies: &Vec<Option<Json>>) -> (r: (
    Option<Result<Vec<ModelOption>, AdvisorError>>,
    Vec<String>,
))
    ensures
        search_base(base_url@).len() == 0 ==> {
            &&& r.0 matches Some(Err(e)) && e.message@ == "base URL is empty"@
            &&& r.1@.len() == 0
        },
        search_base(base_url@).len() > 0 ==> {
            let key = search_key(match api_key { Some(k) => Some(k@), None => None });
            let sources = search_sources(key);
            let n = r.1@.len();
            &&& n <= replies@.len() && n <= sources.len()
            &&& forall|k: int|
                0 <= k < n ==> (#[trigger] r.1@[k])@ == search_base(base_url@) + source_path(sources[k])
            &&& forall|m: int| 0 <= m < n ==> search_outcome(sources, #[trigger] replies@.take(m)) is None
            &&& match search_outcome(sources, replies@.take(n as int)) {
                Some(o) => r.0 matches Some(res) && result_matches(res, o),
                None => r.0 is None && n == replies@.len(),
            }
        },
{
    let mut search = match start_model_search(api_key, base_url) {
        Ok(s) => s,
        Err(e) => {
            return (Some(Err(e)), Vec::new());
        },
    };
    let ghost key = search_key(match api_key { Some(k) => Some(k@), None => None });
    let ghost sources = search_sources(key);
    let ghost queries = search.queries@;
    let mut urls: Vec<String> = Vec::new();
    let mut k: usize = 0;
    assert(search.replies@ =~= replies@.take(0));
    while k < replies.len()
        invariant
            search_base(base_url@).len() > 0,
            key == search_key(match api_key { Some(k) => Some(k@), None => None }),
            sources == search_sources(key),
            search.wf(),
            search.queries@ == queries,
            query_sources(queries) == sources,
            queries.len() == sources.len(),
            forall|i: int|
                0 <= i < sources.len() ==> (#[trigger] queries[i]).url@ == search_base(base_url@) + source_path(
                    sources[i],
                ),
            search.next == k,
            k <= replies@.len(),
            search.replies@ == replies@.take(k as int),
            urls@.len() == k,
            forall|i: int|
                0 <= i < k ==> (#[trigger] urls@[i])@ == search_base(base_url@) + source_path(sources[i]),
            forall|m: int| 0 <= m <= k ==> search_outcome(sources, #[trigger] replies@.take(m)) is None,
        decreases replies.len() - k,
    {
        assert(queries[k as int].source == sources[k as int]);
        let url = search.current().url.clone();
        urls.push(url);
        let reply = match &replies[k] {
            Some(j) => Some(j),
            None => None,
        };
        assert(reply_value(reply) == replies@[k as int]);
        let answer = search.record(reply);
        assert(replies@.take(k + 1) =~= replies@.take(k as int).push(replies@[k as int]));
        assert(search.replies@ == replies@.take(k + 1));
        assert(query_sources(search.queries@) == sources);
        k = k + 1;
        if answer.is_some() {
            return (answer, urls);
        }
    }
    assert(replies@.take(replies@.len() as int) =~= replies@);
    (None, urls)
}

fn search_query(source: ModelSource, base: &Vec<char>, key: &Vec<char>) -> (q: ModelQuery)
    ensures
        q.source == source,
        q.url@ == base@ + source_path(source),
        q.auth@ == source_auth(source, key@),
{
    let path = match source {
        ModelSource::OpenAI => "/models",
        ModelSource::Anthropic => "/v1/models",
        ModelSource::Gemini => "/v1beta/models",
        ModelSource::Ollama => "/api/tags",
    };
    let auth = match source {
        ModelSource::OpenAI => Auth::Bearer(string_of(key)),
        ModelSource::Anthropic => Auth::AnthropicKey(string_of(key)),
        ModelSource::Gemini => Auth::QueryKey(string_of(key)),
        ModelSource::Ollama => Auth::Unauthenticated,
    };
    ModelQuery { source, url: string_of(&concat(base, &chars_of(path))), auth }
}

/// Starts a search for the models of the endpoint at `base_url`; an error
/// when the base URL is blank.
pub fn start_model_search(api_key: Option<&str>, base_url: &str) -> (r: Result<ModelSearch, AdvisorError>)
    ensures
        search_base(base_url@).len() == 0 ==> (r matches Err(e) && e.message@ == "base URL is empty"@),
        search_base(base_url@).len() > 0 ==> (r matches Ok(s) && {
            let key = search_key(match api_key { Some(k) => Some(k@), None => None });
            let sources = search_sources(key);
            &&& s.wf()
            &&& s.next == 0
            &&& s.replies@.len() == 0
            &&& query_sources(s.queries@) == sources
            &&& s.queries@.len() == sources.len()
            &&& forall|i: int| 0 <= i < sources.len() ==> {
                &&& (#[trigger] s.queries@[i]).source == sources[i]
                &&& s.queries@[i].url@ == search_base(base_url@) + source_path(sources[i])
                &&& s.queries@[i].auth@ == source_auth(
                    sources[i],
                    match key { Some(k) => k, None => Seq::empty() },
                )
            }
        }),
{
    let base = trim_end_char_exec(&trim_exec(&chars_of(base_url)), '/');
    if base.len() == 0 {
        return Err(error("base URL is empty"));
    }
    let key: Option<Vec<char>> = match api_key {
        Some(k) => {
            let t = trim_exec(&chars_of(k));
            if t.len() > 0 {
                Some(t)
            } else {
                None
            }
        },
        None => None,
    };
    let mut queries: Vec<ModelQuery> = Vec::new();
    let empty: Vec<char> = Vec::new();
    match &key {
        Some(k) => {
            queries.push(search_query(ModelSource::OpenAI, &base, k));
            queries.push(search_query(ModelSource::Anthropic, &base, k));
            queries.push(search_query(ModelSource::Gemini, &base, k));
            queries.push(search_query(ModelSource::Ollama, &base, k));
        },
        None => {
            queries.push(search_query(ModelSource::Ollama, &base, &empty));
        },
    }
    let ghost key_spec = search_key(match api_key { Some(k) => Some(k@), None => None });
    assert(query_sources(queries@) =~= search_sources(key_spec));
    Ok(ModelSearch { queries, next: 0, failures: Vec::new(), replies: Ghost(Seq::empty()) })
}

} // verus!
