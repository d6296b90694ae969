//! The answer collector: a validated name-to-value mapping built from the
//! manifest's question list and the operator's input lines.
//!
//! The interactive loop itself (prompting, reading one line at a time) lives
//! outside this crate; the decision of what each line means for a question of
//! a given type, and how the mapping grows, is specified and proved here.

use vstd::prelude::*;
use crate::template::{Question, QuestionV};
use crate::text::{
    trim, trim_chars, lower, lower_chars, is_i64_literal, is_i64_chars, str_to_chars,
    chars_to_string, chars_eq, str_eq_chars,
};

verus! {

/// A name-to-value mapping with the insertion order of its keys retained.
/// Keys are unique; inserting an existing key replaces its value in place.
pub struct Answers {
    pairs: Vec<(String, String)>,
}

impl View for Answers {
    type V = Seq<(Seq<char>, Seq<char>)>;

    closed spec fn view(&self) -> Seq<(Seq<char>, Seq<char>)> {
        self.pairs@.map_values(|p: (String, String)| (p.0@, p.1@))
    }
}

/// The value bound to `k`: the first pair whose key is `k`, if any.
pub open spec fn lookup(m: Seq<(Seq<char>, Seq<char>)>, k: Seq<char>) -> Option<Seq<char>>
    decreases m.len(),
{
    if m.len() == 0 {
        None
    } else if m[0].0 == k {
        Some(m[0].1)
    } else {
        lookup(m.drop_first(), k)
    }
}

/// The mapping after binding `k` to `v`: the first pair keyed `k` is
/// replaced, or the new pair is appended when `k` is absent.
pub open spec fn upsert(
    m: Seq<(Seq<char>, Seq<char>)>,
    k: Seq<char>,
    v: Seq<char>,
) -> Seq<(Seq<char>, Seq<char>)>
    decreases m.len(),
{
    if m.len() == 0 {
        seq![(k, v)]
    } else if m[0].0 == k {
        seq![(k, v)] + m.drop_first()
    } else {
        seq![m[0]] + upsert(m.drop_first(), k, v)
    }
}

proof fn lemma_upsert_found(m: Seq<(Seq<char>, Seq<char>)>, k: Seq<char>, v: Seq<char>, i: int)
    requires
        0 <= i < m.len(),
        m[i].0 == k,
        forall|j: int| 0 <= j < i ==> m[j].0 != k,
    ensures
        upsert(m, k, v) =~= m.update(i, (k, v)),
    decreases i,
{
    if i == 0 {
        assert(upsert(m, k, v) == seq![(k, v)] + m.drop_first());
    } else {
        assert(m[0].0 != k);
        lemma_upsert_found(m.drop_first(), k, v, i - 1);
        assert(m.drop_first().update(i - 1, (k, v)) =~= m.update(i, (k, v)).drop_first());
    }
}

proof fn lemma_upsert_absent(m: Seq<(Seq<char>, Seq<char>)>, k: Seq<char>, v: Seq<char>)
    requires
        forall|j: int| 0 <= j < m.len() ==> m[j].0 != k,
    ensures
        upsert(m, k, v) =~= m.push((k, v)),
    decreases m.len(),
{
    if m.len() > 0 {
        lemma_upsert_absent(m.drop_first(), k, v);
        assert(m.drop_first().push((k, v)) =~= m.push((k, v)).drop_first());
    }
}

/// Binding a key makes exactly that key's value visible: the bound key now
/// looks up the new value, and every other key looks up what it did before.
pub proof fn lemma_upsert_lookup(
    m: Seq<(Seq<char>, Seq<char>)>,
    k: Seq<char>,
    v: Seq<char>,
    k2: Seq<char>,
)
    ensures
        lookup(upsert(m, k, v), k) == Some(v),
        k2 != k ==> lookup(upsert(m, k, v), k2) == lookup(m, k2),
    decreases m.len(),
{
    if m.len() == 0 {
        let s = seq![(k, v)];
        assert(upsert(m, k, v) == s);
        assert(s[0].0 == k && s[0].1 == v);
        assert(s.drop_first() =~= m);
        if k2 != k {
            assert(lookup(s, k2) == lookup(s.drop_first(), k2));
        }
    } else {
        lemma_upsert_lookup(m.drop_first(), k, v, k2);
        if m[0].0 == k {
            let s = seq![(k, v)] + m.drop_first();
            assert(upsert(m, k, v) == s);
            assert(s[0].0 == k && s[0].1 == v);
            assert(s.drop_first() =~= m.drop_first());
            if k2 != k {
                assert(lookup(s, k2) == lookup(s.drop_first(), k2));
                assert(lookup(m, k2) == lookup(m.drop_first(), k2));
            }
        } else {
            let s = seq![m[0]] + upsert(m.drop_first(), k, v);
            assert(upsert(m, k, v) == s);
            assert(s[0] == m[0]);
            assert(s.drop_first() =~= upsert(m.drop_first(), k, v));
            assert(lookup(s, k) == lookup(s.drop_first(), k));
            if k2 != k && m[0].0 != k2 {
                assert(lookup(s, k2) == lookup(s.drop_first(), k2));
                assert(lookup(m, k2) == lookup(m.drop_first(), k2));
            }
        }
    }
}

proof fn lemma_lookup_at(m: Seq<(Seq<char>, Seq<char>)>, k: Seq<char>, i: int)
    requires
        0 <= i < m.len(),
        m[i].0 == k,
        forall|j: int| 0 <= j < i ==> m[j].0 != k,
    ensures
        lookup(m, k) == Some(m[i].1),
    decreases i,
{
    if i > 0 {
        lemma_lookup_at(m.drop_first(), k, i - 1);
    }
}

proof fn lemma_lookup_absent(m: Seq<(Seq<char>, Seq<char>)>, k: Seq<char>)
    requires
        forall|j: int| 0 <= j < m.len() ==> m[j].0 != k,
    ensures
        lookup(m, k) == None::<Seq<char>>,
    decreases m.len(),
{
    if m.len() > 0 {
        lemma_lookup_absent(m.drop_first(), k);
    }
}

impl Answers {
    /// An empty mapping.
    pub fn new() -> (r: Answers)
        ensures
            r@ =~= Seq::<(Seq<char>, Seq<char>)>::empty(),
    {
        Answers { pairs: Vec::new() }
    }

    pub open spec fn spec_len(&self) -> nat {
        self@.len()
    }

    pub fn len(&self) -> (r: usize)
        ensures
            r == self.spec_len(),
    {
        self.pairs.len()
    }

    /// The pair at position `i`, in insertion order.
    pub fn pair_at(&self, i: usize) -> (r: (&String, &String))
        requires
            i < self@.len(),
        ensures
            r.0@ == self@[i as int].0,
            r.1@ == self@[i as int].1,
    {
        let p = &self.pairs[i];
        (&p.0, &p.1)
    }

    /// Binds `k` to `v`, replacing the value of an existing key in place.
    pub fn insert(&mut self, k: String, v: String)
        ensures
            final(self)@ =~= upsert(old(self)@, k@, v@),
    {
        let kc = str_to_chars(k.as_str());
        let n = self.pairs.len();
        let mut i: usize = 0;
        while i < n
            invariant
                0 <= i <= n,
                n == self.pairs@.len(),
                self@ =~= old(self)@,
                kc@ == k@,
                forall|j: int| 0 <= j < i ==> #[trigger] self@[j].0 != k@,
            decreases n - i,
        {
            let hit = str_eq_chars(self.pairs[i].0.as_str(), &kc);
            if hit {
                self.pairs.remove(i);
                self.pairs.insert(i, (k, v));
                proof {
                    let mpre = old(self)@;
                    assert(self@ =~= mpre.update(i as int, (k@, v@)));
                    lemma_upsert_found(mpre, k@, v@, i as int);
                }
                return ;
            }
            i += 1;
        }
        self.pairs.push((k, v));
        proof {
            let mpre = old(self)@;
            assert(self@ =~= mpre.push((k@, v@)));
            lemma_upsert_absent(mpre, k@, v@);
        }
    }

    /// The value bound to the key spelled by `k`, if any.
    pub fn get_chars(&self, k: &Vec<char>) -> (r: Option<&String>)
        ensures
            match r {
                Some(v) => lookup(self@, k@) == Some(v@),
                None => lookup(self@, k@) == None::<Seq<char>>,
            },
    {
        let n = self.pairs.len();
        let mut i: usize = 0;
        while i < n
            invariant
                0 <= i <= n,
                n == self.pairs@.len(),
                self@ == self.pairs@.map_values(|p: (String, String)| (p.0@, p.1@)),
                forall|j: int| 0 <= j < i ==> #[trigger] self@[j].0 != k@,
            decreases n - i,
        {
            let p = &self.pairs[i];
            if str_eq_chars(p.0.as_str(), k) {
                proof {
                    lemma_lookup_at(self@, k@, i as int);
                }
                return Some(&p.1);
            }
            i += 1;
        }
        proof {
            lemma_lookup_absent(self@, k@);
        }
        None
    }

    /// The value bound to key `k`, if any.
    pub fn get(&self, k: &str) -> (r: Option<&String>)
        ensures
            match r {
                Some(v) => lookup(self@, k@) == Some(v@),
                None => lookup(self@, k@) == None::<Seq<char>>,
            },
    {
        let kc = str_to_chars(k);
        self.get_chars(&kc)
    }
}

pub open spec fn opt_str_view(r: Option<String>) -> Option<Seq<char>> {
    match r {
        Some(s) => Some(s@),
        None => None,
    }
}

/// What one line of input means for a question: `Some(value)` accepts the
/// (stringified) value and moves on, `None` re-prompts.  An empty trimmed
/// reply accepts the stringified default whatever the type; a `string`
/// question accepts any non-empty reply verbatim; a `number` question accepts
/// only a base-10 signed 64-bit integer; a `bool` question canonicalizes an
/// ASCII-case-insensitive yes/no form to exactly `true` or `false`; a
/// question of any other type accepts the reply verbatim.
pub open spec fn answer_of(qtype: Seq<char>, dflt: Seq<char>, raw: Seq<char>) -> Option<Seq<char>> {
    let t = trim(raw);
    if t.len() == 0 {
        Some(dflt)
    } else if qtype == "string"@ {
        Some(t)
    } else if qtype == "number"@ {
        if is_i64_literal(t) {
            Some(t)
        } else {
            None
        }
    } else if qtype == "bool"@ {
        let l = lower(t);
        if l == "true"@ || l == "1"@ || l == "yes"@ || l == "y"@ {
            Some("true"@)
        } else if l == "false"@ || l == "0"@ || l == "no"@ || l == "n"@ {
            Some("false"@)
        } else {
            None
        }
    } else {
        Some(t)
    }
}

/// Decides what one line of operator input means for a question of the given
/// type: the accepted value, or `None` when the question must be asked again.
pub fn validate_answer(qtype: &str, default_text: &str, raw: &str) -> (r: Option<String>)
    ensures
        opt_str_view(r) == answer_of(qtype@, default_text@, raw@),
{
    let rawc = str_to_chars(raw);
    let t = trim_chars(&rawc);
    if t.len() == 0 {
        return Some(default_text.to_owned());
    }
    let w_string = str_to_chars("string");
    let w_number = str_to_chars("number");
    let w_bool = str_to_chars("bool");
    if str_eq_chars(qtype, &w_string) {
        Some(chars_to_string(&t))
    } else if str_eq_chars(qtype, &w_number) {
        if is_i64_chars(&t) {
            Some(chars_to_string(&t))
        } else {
            None
        }
    } else if str_eq_chars(qtype, &w_bool) {
        let l = lower_chars(&t);
        let affirmed = chars_eq(&l, &str_to_chars("true")) || chars_eq(&l, &str_to_chars("1"))
            || chars_eq(&l, &str_to_chars("yes")) || chars_eq(&l, &str_to_chars("y"));
        if affirmed {
            Some("true".to_owned())
        } else {
            let denied = chars_eq(&l, &str_to_chars("false")) || chars_eq(&l, &str_to_chars("0"))
                || chars_eq(&l, &str_to_chars("no")) || chars_eq(&l, &str_to_chars("n"));
            if denied {
                Some("false".to_owned())
            } else {
                None
            }
        }
    } else {
        Some(chars_to_string(&t))
    }
}

/// The first input at or after position `i` that the question accepts,
/// with the position just past it; `None` when every remaining input is
/// rejected and the prompt loop never ends within the script.
pub open spec fn first_accepted(
    qtype: Seq<char>,
    dflt: Seq<char>,
    inputs: Seq<Seq<char>>,
    i: int,
) -> Option<(Seq<char>, int)>
    decreases inputs.len() - i,
{
    if i < 0 || i >= inputs.len() {
        None
    } else {
        match answer_of(qtype, dflt, inputs[i]) {
            Some(v) => Some((v, i + 1)),
            None => first_accepted(qtype, dflt, inputs, i + 1),
        }
    }
}

pub open spec fn question_views(qs: Seq<Question>) -> Seq<QuestionV> {
    qs.map_values(|q: Question| q@)
}

pub open spec fn line_views(lines: Seq<String>) -> Seq<Seq<char>> {
    lines.map_values(|s: String| s@)
}

/// The mapping and input position reached after asking the given questions
/// in order against a scripted sequence of input lines, starting at input
/// position `i` with the mapping `acc`; `None` when the script runs out
/// while some question keeps re-prompting.
pub open spec fn collect_from(
    qs: Seq<QuestionV>,
    inputs: Seq<Seq<char>>,
    i: int,
    acc: Seq<(Seq<char>, Seq<char>)>,
) -> Option<(Seq<(Seq<char>, Seq<char>)>, int)>
    decreases qs.len(),
{
    if qs.len() == 0 {
        Some((acc, i))
    } else {
        match first_accepted(qs[0].qtype, qs[0].default_text, inputs, i) {
            Some(p) => collect_from(qs.drop_first(), inputs, p.1, upsert(acc, qs[0].name, p.0)),
            None => None,
        }
    }
}

/// The outcome of a whole collection run over a scripted input sequence:
/// the final mapping and the number of input lines consumed, each line
/// having been read in reply to exactly one prompt.
pub open spec fn collect_result(qs: Seq<QuestionV>, inputs: Seq<Seq<char>>) -> Option<
    (Seq<(Seq<char>, Seq<char>)>, int),
> {
    collect_from(qs, inputs, 0, Seq::<(Seq<char>, Seq<char>)>::empty())
}

/// Feeds scripted input lines to one question until one is accepted.
fn first_accepted_exec(qtype: &str, dflt: &str, inputs: &Vec<String>, start: usize) -> (r: Option<
    (String, usize),
>)
    requires
        start <= inputs@.len(),
    ensures
        match r {
            Some(p) => {
                &&& first_accepted(qtype@, dflt@, line_views(inputs@), start as int) == Some(
                    (p.0@, p.1 as int),
                )
                &&& start < p.1 <= inputs@.len()
            },
            None => first_accepted(qtype@, dflt@, line_views(inputs@), start as int)
                is None,
        },
{
    let n = inputs.len();
    let mut i: usize = start;
    while i < n
        invariant
            start <= i <= n,
            n == inputs@.len(),
            first_accepted(qtype@, dflt@, line_views(inputs@), start as int) == first_accepted(
                qtype@,
                dflt@,
                line_views(inputs@),
                i as int,
            ),
        decreases n - i,
    {
        match validate_answer(qtype, dflt, inputs[i].as_str()) {
            Some(v) => {
                return Some((v, i + 1));
            },
            None => {
                proof {
                    assert(line_views(inputs@)[i as int] == inputs@[i as int]@);
                }
                i += 1;
            },
        }
    }
    None
}

/// Asks every question in order against a scripted sequence of input lines,
/// returning the finished mapping and how many lines were consumed (one per
/// prompt issued); `None` when the script ends while a question still
/// re-prompts.
pub fn collect_answers(questions: &Vec<Question>, inputs: &Vec<String>) -> (r: Option<
    (Answers, usize),
>)
    ensures
        match r {
            Some(p) => collect_result(question_views(questions@), line_views(inputs@)) == Some(
                (p.0@, p.1 as int),
            ),
            None => collect_result(question_views(questions@), line_views(inputs@))
                is None,
        },
{
    let nq = questions.len();
    let mut acc = Answers::new();
    let mut idx: usize = 0;
    let mut qi: usize = 0;
    proof {
        assert(question_views(questions@).skip(0) =~= question_views(questions@));
    }
    while qi < nq
        invariant
            0 <= qi <= nq,
            nq == questions@.len(),
            idx <= inputs@.len(),
            collect_result(question_views(questions@), line_views(inputs@)) == collect_from(
                question_views(questions@).skip(qi as int),
                line_views(inputs@),
                idx as int,
                acc@,
            ),
        decreases nq - qi,
    {
        let ghost qs = question_views(questions@).skip(qi as int);
        let q = &questions[qi];
        proof {
            assert(qs[0] == question_views(questions@)[qi as int]);
            assert(qs.drop_first() =~= question_views(questions@).skip(qi + 1));
        }
        match first_accepted_exec(q.qtype.as_str(), q.default_text.as_str(), inputs, idx) {
            Some(p) => {
                let (value, next_idx) = p;
                acc.insert(q.name.clone(), value);
                idx = next_idx;
                qi += 1;
            },
            None => {
                return None;
            },
        }
    }
    proof {
        assert(question_views(questions@).skip(nq as int) =~= Seq::<QuestionV>::empty());
    }
    Some((acc, idx))
}

/// The name of the directory the generated project is placed in: the answer
/// stored under `app_name` when the questions supplied one, the template's
/// own name otherwise.
pub open spec fn output_name_spec(m: Seq<(Seq<char>, Seq<char>)>, template_name: Seq<char>) -> Seq<
    char,
> {
    match lookup(m, "app_name"@) {
        Some(v) => v,
        None => template_name,
    }
}

/// Picks the output directory's name: an `app_name` answer overrides the
/// template's name.
pub fn output_dir_name(answers: &Answers, template_name: &str) -> (r: String)
    ensures
        r@ == output_name_spec(answers@, template_name@),
{
    match answers.get("app_name") {
        Some(v) => v.clone(),
        None => template_name.to_owned(),
    }
}

/// An empty trimmed reply always accepts the stringified default, whatever
/// the question's type.
pub proof fn lemma_empty_input_accepts_default(qtype: Seq<char>, dflt: Seq<char>, raw: Seq<char>)
    requires
        trim(raw).len() == 0,
    ensures
        answer_of(qtype, dflt, raw) == Some(dflt),
{
}

/// A non-empty reply to a `number` question that is not a signed 64-bit
/// integer literal is rejected: the collector never advances past the
/// re-prompt on such input.
pub proof fn lemma_number_rejects_nonnumeric(dflt: Seq<char>, inputs: Seq<Seq<char>>, i: int)
    requires
        0 <= i < inputs.len(),
        trim(inputs[i]).len() > 0,
        !is_i64_literal(trim(inputs[i])),
    ensures
        answer_of("number"@, dflt, inputs[i]) is None,
        first_accepted("number"@, dflt, inputs, i) == first_accepted("number"@, dflt, inputs, i + 1),
{
    reveal_strlit("number");
    reveal_strlit("string");
    assert("number"@[0] == 'n' && "string"@[0] == 's');
    assert("number"@ != "string"@);
}

/// An accepted non-empty reply to a `bool` question is canonical: the stored
/// value is exactly `true` or `false`.
pub proof fn lemma_bool_canonical(dflt: Seq<char>, raw: Seq<char>)
    requires
        trim(raw).len() > 0,
        answer_of("bool"@, dflt, raw) is Some,
    ensures
        answer_of("bool"@, dflt, raw) == Some("true"@) || answer_of("bool"@, dflt, raw) == Some(
            "false"@,
        ),
{
    reveal_strlit("bool");
    reveal_strlit("string");
    reveal_strlit("number");
    assert("bool"@.len() == 4 && "string"@.len() == 6 && "number"@.len() == 6);
    assert("bool"@ != "string"@ && "bool"@ != "number"@);
}

} // verus!
