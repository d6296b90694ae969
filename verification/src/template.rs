//! The descriptor model: the in-memory form of a template manifest, and the
//! substitution pass that applies a validated answer mapping to the file
//! contents the manifest declares.

use vstd::prelude::*;
use crate::answer::{Answers, lookup};
use crate::json::{
    parse_json, json_get, json_string, json_array, json_render, spec_parse_json, spec_json_get,
    spec_json_string, spec_json_array, spec_json_render,
};
use crate::subst::{replace_all, replace_chars, strip_braces, strip_braces_chars};
use crate::text::{str_to_chars, chars_to_string};

verus! {

/// A manifest that is missing, unreadable as JSON, or out of shape: a
/// required field absent, or a value of the wrong kind.
#[derive(Debug)]
pub enum TemplateError {
    MalformedManifest,
}

/// One declared variable of a template: the operator is prompted for it and
/// the validated reply is stored under `name` in the answer mapping.
/// `default_text` is the stringified form of the manifest's default value; it
/// is what an empty reply accepts, whatever the question's type.
pub struct Question {
    pub name: String,
    pub prompt: String,
    pub qtype: String,
    pub default_text: String,
}

pub ghost struct QuestionV {
    pub name: Seq<char>,
    pub prompt: Seq<char>,
    pub qtype: Seq<char>,
    pub default_text: Seq<char>,
}

impl View for Question {
    type V = QuestionV;

    open spec fn view(&self) -> QuestionV {
        QuestionV {
            name: self.name@,
            prompt: self.prompt@,
            qtype: self.qtype@,
            default_text: self.default_text@,
        }
    }
}

/// One replacement rule inside a file: every occurrence of the literal
/// `placeholder` token is replaced by the answer named by `replacement`
/// (a binding of the form `{question_name}`).  `description` documents the
/// rule and plays no part in substitution.
pub struct Placeholder {
    pub placeholder: String,
    pub replacement: String,
    pub description: String,
}

pub ghost struct PlaceholderV {
    pub placeholder: Seq<char>,
    pub replacement: Seq<char>,
    pub description: Seq<char>,
}

impl View for Placeholder {
    type V = PlaceholderV;

    open spec fn view(&self) -> PlaceholderV {
        PlaceholderV {
            placeholder: self.placeholder@,
            replacement: self.replacement@,
            description: self.description@,
        }
    }
}

/// One file of the template subject to substitution, as a path relative to
/// the template root, with its replacement rules in declared order.
pub struct File {
    pub file: String,
    pub placeholders: Vec<Placeholder>,
}

pub ghost struct FileV {
    pub file: Seq<char>,
    pub placeholders: Seq<PlaceholderV>,
}

impl View for File {
    type V = FileV;

    open spec fn view(&self) -> FileV {
        FileV {
            file: self.file@,
            placeholders: self.placeholders@.map_values(|p: Placeholder| p@),
        }
    }
}

/// A parsed template manifest: the questions to ask, in prompt order, and
/// the files to rewrite, in processing order.
pub struct Template {
    pub questions: Vec<Question>,
    pub files: Vec<File>,
}

pub ghost struct TemplateV {
    pub questions: Seq<QuestionV>,
    pub files: Seq<FileV>,
}

impl View for Template {
    type V = TemplateV;

    open spec fn view(&self) -> TemplateV {
        TemplateV {
            questions: self.questions@.map_values(|q: Question| q@),
            files: self.files@.map_values(|f: File| f@),
        }
    }
}

/// The text after one rule is applied: if the rule's binding, stripped of its
/// braces, names an answer, every occurrence of the token is replaced by that
/// answer's value; an unresolved binding leaves the text untouched.
pub open spec fn apply_placeholder(
    content: Seq<char>,
    ph: PlaceholderV,
    answers: Seq<(Seq<char>, Seq<char>)>,
) -> Seq<char> {
    match lookup(answers, strip_braces(ph.replacement)) {
        Some(v) => replace_all(content, ph.placeholder, v),
        None => content,
    }
}

/// The text after all of a file's rules are applied, in declared order.
pub open spec fn rewrite_content(
    content: Seq<char>,
    phs: Seq<PlaceholderV>,
    answers: Seq<(Seq<char>, Seq<char>)>,
) -> Seq<char>
    decreases phs.len(),
{
    if phs.len() == 0 {
        content
    } else {
        rewrite_content(apply_placeholder(content, phs[0], answers), phs.drop_first(), answers)
    }
}

/// Applies one file's replacement rules to that file's text.
pub fn rewrite_file(file: &File, answers: &Answers, content: &str) -> (r: String)
    ensures
        r@ == rewrite_content(content@, file@.placeholders, answers@),
{
    let mut cur: Vec<char> = str_to_chars(content);
    let n = file.placeholders.len();
    let mut i: usize = 0;
    proof {
        assert(file@.placeholders.skip(0) =~= file@.placeholders);
    }
    while i < n
        invariant
            0 <= i <= n,
            n == file.placeholders@.len(),
            rewrite_content(content@, file@.placeholders, answers@) == rewrite_content(
                cur@,
                file@.placeholders.skip(i as int),
                answers@,
            ),
        decreases n - i,
    {
        let ghost phs = file@.placeholders.skip(i as int);
        let ph = &file.placeholders[i];
        let token = str_to_chars(ph.placeholder.as_str());
        let binding = str_to_chars(ph.replacement.as_str());
        let key = strip_braces_chars(&binding);
        proof {
            assert(phs[0] == file@.placeholders[i as int]);
            assert(phs.drop_first() =~= file@.placeholders.skip(i + 1));
        }
        match answers.get_chars(&key) {
            Some(value) => {
                let val_chars = str_to_chars(value.as_str());
                let replaced = replace_chars(&cur, &token, &val_chars);
                proof {
                    assert(apply_placeholder(cur@, phs[0], answers@) == replaced@);
                }
                cur = replaced;
            },
            None => {
                proof {
                    assert(apply_placeholder(cur@, phs[0], answers@) == cur@);
                }
            },
        }
        i += 1;
    }
    proof {
        assert(file@.placeholders.skip(n as int) =~= Seq::<PlaceholderV>::empty());
    }
    chars_to_string(&cur)
}

/// The string content of the field `key` of a JSON object, when the object
/// has it and it is a string.
pub open spec fn spec_field_string(v: serde_json::Value, key: Seq<char>) -> Option<Seq<char>> {
    match spec_json_get(v, key) {
        Some(f) => spec_json_string(f),
        None => None,
    }
}

/// The stringified form of a manifest default: a JSON string keeps its
/// characters, any other value its compact JSON rendering.
pub open spec fn spec_default_text(d: serde_json::Value) -> Seq<char> {
    match spec_json_string(d) {
        Some(s) => s,
        None => spec_json_render(d),
    }
}

/// The question a JSON value stands for: an object with string `name`,
/// `prompt` and `type` fields and a `default` of any kind.
pub open spec fn spec_question_of(v: serde_json::Value) -> Option<QuestionV> {
    match (
        spec_field_string(v, "name"@),
        spec_field_string(v, "prompt"@),
        spec_field_string(v, "type"@),
        spec_json_get(v, "default"@),
    ) {
        (Some(name), Some(prompt), Some(qtype), Some(df)) => Some(
            QuestionV { name, prompt, qtype, default_text: spec_default_text(df) },
        ),
        _ => None,
    }
}

/// The questions a JSON array stands for, in declared order; nothing if any
/// element is no question.
pub open spec fn spec_questions_of(items: Seq<serde_json::Value>) -> Option<Seq<QuestionV>>
    decreases items.len(),
{
    if items.len() == 0 {
        Some(Seq::<QuestionV>::empty())
    } else {
        match spec_question_of(items[0]) {
            Some(q) => match spec_questions_of(items.drop_first()) {
                Some(rest) => Some(seq![q] + rest),
                None => None,
            },
            None => None,
        }
    }
}

/// The replacement rule a JSON value stands for: an object with string
/// `placeholder`, `replacement` and `description` fields.
pub open spec fn spec_placeholder_of(v: serde_json::Value) -> Option<PlaceholderV> {
    match (
        spec_field_string(v, "placeholder"@),
        spec_field_string(v, "replacement"@),
        spec_field_string(v, "description"@),
    ) {
        (Some(placeholder), Some(replacement), Some(description)) => Some(
            PlaceholderV { placeholder, replacement, description },
        ),
        _ => None,
    }
}

/// The rules a JSON array stands for, in declared order.
pub open spec fn spec_placeholders_of(items: Seq<serde_json::Value>) -> Option<Seq<PlaceholderV>>
    decreases items.len(),
{
    if items.len() == 0 {
        Some(Seq::<PlaceholderV>::empty())
    } else {
        match spec_placeholder_of(items[0]) {
            Some(p) => match spec_placeholders_of(items.drop_first()) {
                Some(rest) => Some(seq![p] + rest),
                None => None,
            },
            None => None,
        }
    }
}

/// The file entry a JSON value stands for: an object with a string `file`
/// field and a `placeholders` array of rules.
pub open spec fn spec_file_of(v: serde_json::Value) -> Option<FileV> {
    match (spec_field_string(v, "file"@), spec_json_get(v, "placeholders"@)) {
        (Some(file), Some(pf)) => match spec_json_array(pf) {
            Some(items) => match spec_placeholders_of(items) {
                Some(phs) => Some(FileV { file, placeholders: phs }),
                None => None,
            },
            None => None,
        },
        _ => None,
    }
}

/// The file entries a JSON array stands for, in declared order.
pub open spec fn spec_files_of(items: Seq<serde_json::Value>) -> Option<Seq<FileV>>
    decreases items.len(),
{
    if items.len() == 0 {
        Some(Seq::<FileV>::empty())
    } else {
        match spec_file_of(items[0]) {
            Some(f) => match spec_files_of(items.drop_first()) {
                Some(rest) => Some(seq![f] + rest),
                None => None,
            },
            None => None,
        }
    }
}

/// What a text means as a manifest: the descriptor it stands for when it is
/// a JSON object with conforming `questions` and `files` arrays — their
/// declared order kept, each default stringified — and nothing otherwise.
/// No placeholder-binding referential integrity is asked for: a rule whose
/// binding names no question still conforms.
pub open spec fn spec_manifest_of(text: Seq<char>) -> Option<TemplateV> {
    match spec_parse_json(text) {
        Some(doc) => match (spec_json_get(doc, "questions"@), spec_json_get(doc, "files"@)) {
            (Some(qv), Some(fv)) => match (spec_json_array(qv), spec_json_array(fv)) {
                (Some(qitems), Some(fitems)) => match (
                    spec_questions_of(qitems),
                    spec_files_of(fitems),
                ) {
                    (Some(qs), Some(fs)) => Some(TemplateV { questions: qs, files: fs }),
                    _ => None,
                },
                _ => None,
            },
            _ => None,
        },
        None => None,
    }
}

proof fn lemma_questions_of_all(items: Seq<serde_json::Value>, qs: Seq<QuestionV>)
    requires
        qs.len() == items.len(),
        forall|j: int| 0 <= j < items.len() ==> spec_question_of(#[trigger] items[j]) == Some(
            qs[j],
        ),
    ensures
        spec_questions_of(items) == Some(qs),
    decreases items.len(),
{
    if items.len() > 0 {
        lemma_questions_of_all(items.drop_first(), qs.drop_first());
        assert(seq![qs[0]] + qs.drop_first() =~= qs);
    } else {
        assert(qs =~= Seq::<QuestionV>::empty());
    }
}

proof fn lemma_questions_of_fail(items: Seq<serde_json::Value>, j: int)
    requires
        0 <= j < items.len(),
        spec_question_of(items[j]) is None,
    ensures
        spec_questions_of(items) is None,
    decreases items.len(),
{
    if j > 0 {
        lemma_questions_of_fail(items.drop_first(), j - 1);
    }
}

proof fn lemma_placeholders_of_all(items: Seq<serde_json::Value>, ps: Seq<PlaceholderV>)
    requires
        ps.len() == items.len(),
        forall|j: int| 0 <= j < items.len() ==> spec_placeholder_of(#[trigger] items[j]) == Some(
            ps[j],
        ),
    ensures
        spec_placeholders_of(items) == Some(ps),
    decreases items.len(),
{
    if items.len() > 0 {
        lemma_placeholders_of_all(items.drop_first(), ps.drop_first());
        assert(seq![ps[0]] + ps.drop_first() =~= ps);
    } else {
        assert(ps =~= Seq::<PlaceholderV>::empty());
    }
}

proof fn lemma_placeholders_of_fail(items: Seq<serde_json::Value>, j: int)
    requires
        0 <= j < items.len(),
        spec_placeholder_of(items[j]) is None,
    ensures
        spec_placeholders_of(items) is None,
    decreases items.len(),
{
    if j > 0 {
        lemma_placeholders_of_fail(items.drop_first(), j - 1);
    }
}

proof fn lemma_files_of_all(items: Seq<serde_json::Value>, fs: Seq<FileV>)
    requires
        fs.len() == items.len(),
        forall|j: int| 0 <= j < items.len() ==> spec_file_of(#[trigger] items[j]) == Some(fs[j]),
    ensures
        spec_files_of(items) == Some(fs),
    decreases items.len(),
{
    if items.len() > 0 {
        lemma_files_of_all(items.drop_first(), fs.drop_first());
        assert(seq![fs[0]] + fs.drop_first() =~= fs);
    } else {
        assert(fs =~= Seq::<FileV>::empty());
    }
}

proof fn lemma_files_of_fail(items: Seq<serde_json::Value>, j: int)
    requires
        0 <= j < items.len(),
        spec_file_of(items[j]) is None,
    ensures
        spec_files_of(items) is None,
    decreases items.len(),
{
    if j > 0 {
        lemma_files_of_fail(items.drop_first(), j - 1);
    }
}

/// The string content of the field `key` of a JSON object, if the object
/// has it and it is a string.
fn field_string(item: &serde_json::Value, key: &str) -> (r: Option<String>)
    ensures
        match r {
            Some(s) => spec_field_string(*item, key@) == Some(s@),
            None => spec_field_string(*item, key@) is None,
        },
{
    match json_get(item, key) {
        Some(f) => json_string(f),
        None => None,
    }
}

/// Reads a manifest's question list out of its JSON array.
fn parse_questions(items: &Vec<serde_json::Value>) -> (r: Option<Vec<Question>>)
    ensures
        match r {
            Some(qs) => spec_questions_of(items@) == Some(qs@.map_values(|q: Question| q@)),
            None => spec_questions_of(items@) is None,
        },
{
    let mut questions: Vec<Question> = Vec::new();
    let n = items.len();
    let mut i: usize = 0;
    while i < n
        invariant
            0 <= i <= n,
            n == items@.len(),
            questions@.len() == i,
            forall|j: int| 0 <= j < i ==> spec_question_of(#[trigger] items@[j]) == Some(
                questions@[j]@,
            ),
        decreases n - i,
    {
        let item = &items[i];
        let name = match field_string(item, "name") {
            Some(s) => s,
            None => {
                proof {
                    lemma_questions_of_fail(items@, i as int);
                }
                return None;
            },
        };
        let prompt = match field_string(item, "prompt") {
            Some(s) => s,
            None => {
                proof {
                    lemma_questions_of_fail(items@, i as int);
                }
                return None;
            },
        };
        let qtype = match field_string(item, "type") {
            Some(s) => s,
            None => {
                proof {
                    lemma_questions_of_fail(items@, i as int);
                }
                return None;
            },
        };
        let default_text = match json_get(item, "default") {
            Some(d) => match json_string(d) {
                Some(s) => s,
                None => json_render(d),
            },
            None => {
                proof {
                    lemma_questions_of_fail(items@, i as int);
                }
                return None;
            },
        };
        proof {
            assert(spec_question_of(items@[i as int]) == Some(
                QuestionV { name: name@, prompt: prompt@, qtype: qtype@, default_text: default_text@ },
            ));
        }
        questions.push(Question { name, prompt, qtype, default_text });
        i += 1;
    }
    proof {
        lemma_questions_of_all(items@, questions@.map_values(|q: Question| q@));
    }
    Some(questions)
}

/// Reads a file entry's replacement rules out of its JSON array.
fn parse_placeholders(items: &Vec<serde_json::Value>) -> (r: Option<Vec<Placeholder>>)
    ensures
        match r {
            Some(ps) => spec_placeholders_of(items@) == Some(
                ps@.map_values(|p: Placeholder| p@),
            ),
            None => spec_placeholders_of(items@) is None,
        },
{
    let mut placeholders: Vec<Placeholder> = Vec::new();
    let n = items.len();
    let mut i: usize = 0;
    while i < n
        invariant
            0 <= i <= n,
            n == items@.len(),
            placeholders@.len() == i,
            forall|j: int| 0 <= j < i ==> spec_placeholder_of(#[trigger] items@[j]) == Some(
                placeholders@[j]@,
            ),
        decreases n - i,
    {
        let item = &items[i];
        let placeholder = match field_string(item, "placeholder") {
            Some(s) => s,
            None => {
                proof {
                    lemma_placeholders_of_fail(items@, i as int);
                }
                return None;
            },
        };
        let replacement = match field_string(item, "replacement") {
            Some(s) => s,
            None => {
                proof {
                    lemma_placeholders_of_fail(items@, i as int);
                }
                return None;
            },
        };
        let description = match field_string(item, "description") {
            Some(s) => s,
            None => {
                proof {
                    lemma_placeholders_of_fail(items@, i as int);
                }
                return None;
            },
        };
        proof {
            assert(spec_placeholder_of(items@[i as int]) == Some(
                PlaceholderV {
                    placeholder: placeholder@,
                    replacement: replacement@,
                    description: description@,
                },
            ));
        }
        placeholders.push(Placeholder { placeholder, replacement, description });
        i += 1;
    }
    proof {
        lemma_placeholders_of_all(items@, placeholders@.map_values(|p: Placeholder| p@));
    }
    Some(placeholders)
}

/// Reads a manifest's file list out of its JSON array.
fn parse_files(items: &Vec<serde_json::Value>) -> (r: Option<Vec<File>>)
    ensures
        match r {
            Some(fs) => spec_files_of(items@) == Some(fs@.map_values(|f: File| f@)),
            None => spec_files_of(items@) is None,
        },
{
    let mut files: Vec<File> = Vec::new();
    let n = items.len();
    let mut i: usize = 0;
    while i < n
        invariant
            0 <= i <= n,
            n == items@.len(),
            files@.len() == i,
            forall|j: int| 0 <= j < i ==> spec_file_of(#[trigger] items@[j]) == Some(files@[j]@),
        decreases n - i,
    {
        let item = &items[i];
        let file = match field_string(item, "file") {
            Some(s) => s,
            None => {
                proof {
                    lemma_files_of_fail(items@, i as int);
                }
                return None;
            },
        };
        let ph_arr = match json_get(item, "placeholders") {
            Some(v) => match json_array(v) {
                Some(a) => a,
                None => {
                    proof {
                        lemma_files_of_fail(items@, i as int);
                    }
                    return None;
                },
            },
            None => {
                proof {
                    lemma_files_of_fail(items@, i as int);
                }
                return None;
            },
        };
        let placeholders = match parse_placeholders(ph_arr) {
            Some(ps) => ps,
            None => {
                proof {
                    lemma_files_of_fail(items@, i as int);
                }
                return None;
            },
        };
        proof {
            assert(spec_file_of(items@[i as int]) == Some(
                FileV {
                    file: file@,
                    placeholders: placeholders@.map_values(|p: Placeholder| p@),
                },
            ));
        }
        files.push(File { file, placeholders });
        i += 1;
    }
    proof {
        lemma_files_of_all(items@, files@.map_values(|f: File| f@));
    }
    Some(files)
}

impl Template {
    /// Parses a manifest document into the descriptor model: exactly the
    /// descriptor the text stands for per `spec_manifest_of`.  The document
    /// must be a JSON object with `questions` and `files` arrays; each
    /// question needs string `name`, `prompt` and `type` fields and a
    /// `default` of any kind, stored here in its stringified form (a string
    /// default keeps its characters, any other value its compact JSON
    /// rendering); each file needs a string `file` field and a `placeholders`
    /// array of objects with string `placeholder`, `replacement` and
    /// `description` fields.  Fields beyond these are ignored; anything
    /// missing or of the wrong kind — and nothing else — is a malformed
    /// manifest.  No placeholder binding is checked against the question
    /// list: that integrity is settled lazily during substitution.
    pub fn parse_from_str(text: &str) -> (r: Result<Template, TemplateError>)
        ensures
            match r {
                Ok(t) => spec_manifest_of(text@) == Some(t@),
                Err(_) => spec_manifest_of(text@) is None,
            },
    {
        let doc = match parse_json(text) {
            Some(v) => v,
            None => {
                return Err(TemplateError::MalformedManifest);
            },
        };
        let qs_arr = match json_get(&doc, "questions") {
            Some(v) => match json_array(v) {
                Some(a) => a,
                None => {
                    return Err(TemplateError::MalformedManifest);
                },
            },
            None => {
                return Err(TemplateError::MalformedManifest);
            },
        };
        let fs_arr = match json_get(&doc, "files") {
            Some(v) => match json_array(v) {
                Some(a) => a,
                None => {
                    return Err(TemplateError::MalformedManifest);
                },
            },
            None => {
                return Err(TemplateError::MalformedManifest);
            },
        };
        let questions = match parse_questions(qs_arr) {
            Some(qs) => qs,
            None => {
                return Err(TemplateError::MalformedManifest);
            },
        };
        let files = match parse_files(fs_arr) {
            Some(fs) => fs,
            None => {
                return Err(TemplateError::MalformedManifest);
            },
        };
        Ok(Template { questions, files })
    }

    /// Asks this template's questions in order against a scripted sequence
    /// of input lines (one line per prompt, a rejected line re-prompting the
    /// same question): the validated answer mapping and the number of lines
    /// consumed, or `None` when the script ends with a question still open.
    pub fn ask_questions(&self, inputs: &Vec<String>) -> (r: Option<(Answers, usize)>)
        ensures
            match r {
                Some(p) => crate::answer::collect_result(
                    crate::answer::question_views(self.questions@),
                    crate::answer::line_views(inputs@),
                ) == Some((p.0@, p.1 as int)),
                None => crate::answer::collect_result(
                    crate::answer::question_views(self.questions@),
                    crate::answer::line_views(inputs@),
                ) is None,
            },
    {
        crate::answer::collect_answers(&self.questions, inputs)
    }

    /// Applies every file's rules to that file's text, position by position:
    /// `contents[i]` is the text of `self.files[i]`.  Reading and writing the
    /// files themselves is the caller's side of the bargain.
    pub fn apply_replacements(&self, answers: &Answers, contents: &Vec<String>) -> (r: Vec<String>)
        requires
            contents@.len() == self.files@.len(),
        ensures
            r@.len() == self@.files.len(),
            forall|i: int|
                0 <= i < r@.len() ==> r@[i]@ == rewrite_content(
                    contents@[i]@,
                    self@.files[i].placeholders,
                    answers@,
                ),
    {
        let n = self.files.len();
        let mut out: Vec<String> = Vec::new();
        let mut i: usize = 0;
        while i < n
            invariant
                0 <= i <= n,
                n == self.files@.len(),
                contents@.len() == n,
                out@.len() == i,
                forall|j: int|
                    0 <= j < i ==> out@[j]@ == rewrite_content(
                        contents@[j]@,
                        self@.files[j].placeholders,
                        answers@,
                    ),
            decreases n - i,
        {
            let rewritten = rewrite_file(&self.files[i], answers, contents[i].as_str());
            out.push(rewritten);
            i += 1;
        }
        out
    }
}

} // verus!
