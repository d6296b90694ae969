use kff::answer::{collect_answers, output_dir_name, validate_answer, Answers};
use kff::template::{File, Placeholder, Question, Template, TemplateError};

fn question(name: &str, prompt: &str, qtype: &str, default_text: &str) -> Question {
    Question {
        name: String::from(name),
        prompt: String::from(prompt),
        qtype: String::from(qtype),
        default_text: String::from(default_text),
    }
}

fn placeholder(token: &str, binding: &str) -> Placeholder {
    Placeholder {
        placeholder: String::from(token),
        replacement: String::from(binding),
        description: String::from("a placeholder"),
    }
}

const MANIFEST: &str = r#"{
  "questions": [
    {"name": "app_name", "prompt": "Application name", "type": "string", "default": "myapp"},
    {"name": "width", "prompt": "Window width", "type": "number", "default": 42},
    {"name": "fullscreen", "prompt": "Fullscreen", "type": "bool", "default": true}
  ],
  "files": [
    {"file": "main.c", "placeholders": [
      {"placeholder": "__APP__", "replacement": "{app_name}", "description": "the app name"}
    ]}
  ]
}"#;

#[test]
fn manifest_parses_with_stringified_defaults() {
    let t = Template::parse_from_str(MANIFEST).expect("well-formed manifest");
    assert_eq!(t.questions.len(), 3);
    assert_eq!(t.questions[0].name, "app_name");
    assert_eq!(t.questions[0].prompt, "Application name");
    assert_eq!(t.questions[0].qtype, "string");
    assert_eq!(t.questions[0].default_text, "myapp");
    // a non-string default is stored as its compact JSON rendering
    assert_eq!(t.questions[1].default_text, "42");
    assert_eq!(t.questions[2].default_text, "true");
    assert_eq!(t.files.len(), 1);
    assert_eq!(t.files[0].file, "main.c");
    assert_eq!(t.files[0].placeholders.len(), 1);
    assert_eq!(t.files[0].placeholders[0].placeholder, "__APP__");
    assert_eq!(t.files[0].placeholders[0].replacement, "{app_name}");
}

#[test]
fn null_default_renders_as_null() {
    let text = r#"{"questions": [{"name": "x", "prompt": "x?", "type": "string", "default": null}],
                   "files": []}"#;
    let t = Template::parse_from_str(text).expect("well-formed manifest");
    assert_eq!(t.questions[0].default_text, "null");
}

#[test]
fn malformed_manifests_are_rejected() {
    let cases = [
        "not json at all",
        r#"{"files": []}"#,
        r#"{"questions": {}, "files": []}"#,
        r#"{"questions": [], "files": {}}"#,
        r#"{"questions": [{"prompt": "x?", "type": "string", "default": ""}], "files": []}"#,
        r#"{"questions": [{"name": "x", "type": "string", "default": ""}], "files": []}"#,
        r#"{"questions": [{"name": "x", "prompt": "x?", "default": ""}], "files": []}"#,
        r#"{"questions": [{"name": "x", "prompt": "x?", "type": "string"}], "files": []}"#,
        r#"{"questions": [{"name": 3, "prompt": "x?", "type": "string", "default": ""}], "files": []}"#,
        r#"{"questions": [], "files": [{"placeholders": []}]}"#,
        r#"{"questions": [], "files": [{"file": "a"}]}"#,
        r#"{"questions": [], "files": [{"file": "a", "placeholders": [{"placeholder": "t"}]}]}"#,
    ];
    for text in cases {
        assert!(matches!(
            Template::parse_from_str(text),
            Err(TemplateError::MalformedManifest)
        ));
    }
}

#[test]
fn dangling_binding_still_parses() {
    // binding referential integrity is not checked at parse time: a rule
    // bound to a question that does not exist is still a conforming manifest
    let text = r#"{
      "questions": [{"name": "x", "prompt": "x?", "type": "string", "default": "v"}],
      "files": [{"file": "a", "placeholders": [
        {"placeholder": "$T$", "replacement": "{no_such_question}", "description": "dangling"}
      ]}]
    }"#;
    let t = Template::parse_from_str(text).expect("dangling binding must still parse");
    assert_eq!(t.files[0].placeholders[0].replacement, "{no_such_question}");
}

#[test]
fn empty_input_accepts_default_for_every_type() {
    for qtype in ["string", "number", "bool", "anything-else"] {
        let r = validate_answer(qtype, "fallback", "\n");
        assert_eq!(r.as_deref(), Some("fallback"));
    }
    // whitespace-only input counts as empty, Unicode whitespace included
    assert_eq!(validate_answer("number", "7", "   \t  ").as_deref(), Some("7"));
    assert_eq!(validate_answer("string", "7", "\u{a0}\u{2003}").as_deref(), Some("7"));
    // and trimming strips it from both ends of a real reply
    assert_eq!(validate_answer("string", "d", "\u{a0}hi\u{3000}").as_deref(), Some("hi"));
}

#[test]
fn string_answers_are_trimmed_verbatim() {
    assert_eq!(validate_answer("string", "d", "  hello world \n").as_deref(), Some("hello world"));
}

#[test]
fn number_answers_accept_only_integers() {
    assert_eq!(validate_answer("number", "0", "42\n").as_deref(), Some("42"));
    assert_eq!(validate_answer("number", "0", "-8").as_deref(), Some("-8"));
    assert_eq!(validate_answer("number", "0", "+7").as_deref(), Some("+7"));
    assert_eq!(validate_answer("number", "0", "9223372036854775807").as_deref(), Some("9223372036854775807"));
    assert_eq!(validate_answer("number", "0", "-9223372036854775808").as_deref(), Some("-9223372036854775808"));
    assert_eq!(validate_answer("number", "0", "abc"), None);
    assert_eq!(validate_answer("number", "0", "4.5"), None);
    assert_eq!(validate_answer("number", "0", "9223372036854775808"), None);
    assert_eq!(validate_answer("number", "0", "-9223372036854775809"), None);
    assert_eq!(validate_answer("number", "0", "99999999999999999999999"), None);
    assert_eq!(validate_answer("number", "0", "+"), None);
    assert_eq!(validate_answer("number", "0", "1 2"), None);
}

#[test]
fn bool_answers_are_canonical() {
    for yes in ["true", "TRUE", "1", "yes", "Yes", "y", "Y"] {
        assert_eq!(validate_answer("bool", "d", yes).as_deref(), Some("true"), "input {yes}");
    }
    for no in ["false", "False", "0", "no", "NO", "n", "N"] {
        assert_eq!(validate_answer("bool", "d", no).as_deref(), Some("false"), "input {no}");
    }
    assert_eq!(validate_answer("bool", "d", "maybe"), None);
}

#[test]
fn unknown_type_accepts_input_verbatim() {
    assert_eq!(validate_answer("color", "red", " blue ").as_deref(), Some("blue"));
}

#[test]
fn number_question_reprompts_until_valid() {
    // Scenario: the operator enters "abc", then "42": the final answer is
    // "42" and exactly two inputs were consumed (one per prompt).
    let questions = vec![question("n", "A number", "number", "0")];
    let inputs = vec![String::from("abc"), String::from("42")];
    let (answers, consumed) = collect_answers(&questions, &inputs).expect("script suffices");
    assert_eq!(consumed, 2);
    assert_eq!(answers.get("n").map(|s| s.as_str()), Some("42"));
}

#[test]
fn collection_fails_when_script_runs_out() {
    let questions = vec![question("n", "A number", "number", "0")];
    let inputs = vec![String::from("abc"), String::from("still not a number")];
    assert!(collect_answers(&questions, &inputs).is_none());
}

#[test]
fn answers_follow_question_order() {
    let questions = vec![
        question("a", "a?", "string", "1"),
        question("b", "b?", "string", "2"),
    ];
    let inputs = vec![String::from("x"), String::from("")];
    let (answers, consumed) = collect_answers(&questions, &inputs).expect("script suffices");
    assert_eq!(consumed, 2);
    assert_eq!(answers.len(), 2);
    let (k0, v0) = answers.pair_at(0);
    let (k1, v1) = answers.pair_at(1);
    assert_eq!((k0.as_str(), v0.as_str()), ("a", "x"));
    assert_eq!((k1.as_str(), v1.as_str()), ("b", "2"));
}

#[test]
fn inserting_an_existing_key_replaces_in_place() {
    let mut answers = Answers::new();
    answers.insert(String::from("a"), String::from("1"));
    answers.insert(String::from("b"), String::from("2"));
    answers.insert(String::from("a"), String::from("3"));
    assert_eq!(answers.len(), 2);
    let (k0, v0) = answers.pair_at(0);
    assert_eq!((k0.as_str(), v0.as_str()), ("a", "3"));
    assert_eq!(answers.get("a").map(|s| s.as_str()), Some("3"));
    assert_eq!(answers.get("missing"), None);
}

#[test]
fn substitution_replaces_every_occurrence() {
    let file = File {
        file: String::from("main.c"),
        placeholders: vec![placeholder("__APP__", "{app_name}")],
    };
    let mut answers = Answers::new();
    answers.insert(String::from("app_name"), String::from("myapp"));
    let out = kff::template::rewrite_file(&file, &answers, "run __APP__; install __APP__;");
    assert_eq!(out, "run myapp; install myapp;");
}

#[test]
fn unresolved_binding_is_skipped_silently() {
    // Scenario: the binding names a question absent from the answer mapping;
    // the token stays in place and the run still succeeds.
    let file = File {
        file: String::from("main.c"),
        placeholders: vec![
            placeholder("__APP__", "{no_such_question}"),
            placeholder("__W__", "{width}"),
        ],
    };
    let mut answers = Answers::new();
    answers.insert(String::from("width"), String::from("42"));
    let out = kff::template::rewrite_file(&file, &answers, "__APP__ at __W__");
    assert_eq!(out, "__APP__ at 42");
}

#[test]
fn no_matching_placeholder_leaves_content_identical() {
    let file = File {
        file: String::from("main.c"),
        placeholders: vec![placeholder("__GONE__", "{app_name}")],
    };
    let mut answers = Answers::new();
    answers.insert(String::from("app_name"), String::from("myapp"));
    let content = "nothing to see here \u{1F980} {app_name}";
    let out = kff::template::rewrite_file(&file, &answers, content);
    assert_eq!(out, content);
}

#[test]
fn substitution_idempotent_when_token_absent_from_replacement() {
    let file = File {
        file: String::from("f"),
        placeholders: vec![placeholder("$X$", "{v}")],
    };
    let mut answers = Answers::new();
    answers.insert(String::from("v"), String::from("value"));
    let once = kff::template::rewrite_file(&file, &answers, "a $X$ b $X$");
    let twice = kff::template::rewrite_file(&file, &answers, once.as_str());
    assert_eq!(once, "a value b value");
    assert_eq!(twice, once);
}

#[test]
fn substitution_not_idempotent_when_token_inside_replacement() {
    let file = File {
        file: String::from("f"),
        placeholders: vec![placeholder("ab", "{v}")],
    };
    let mut answers = Answers::new();
    answers.insert(String::from("v"), String::from("ab ab"));
    let once = kff::template::rewrite_file(&file, &answers, "ab");
    let twice = kff::template::rewrite_file(&file, &answers, once.as_str());
    assert_eq!(once, "ab ab");
    assert_ne!(twice, once);
}

#[test]
fn files_are_processed_positionally() {
    let t = Template {
        questions: vec![],
        files: vec![
            File { file: String::from("a"), placeholders: vec![placeholder("$A$", "{x}")] },
            File { file: String::from("b"), placeholders: vec![placeholder("$B$", "{x}")] },
        ],
    };
    let mut answers = Answers::new();
    answers.insert(String::from("x"), String::from("X"));
    let contents = vec![String::from("$A$ $B$"), String::from("$A$ $B$")];
    let out = t.apply_replacements(&answers, &contents);
    assert_eq!(out, vec![String::from("X $B$"), String::from("$A$ X")]);
}

#[test]
fn generation_scenario_with_default_app_name() {
    // Scenario: one string question `app_name` with default "myapp", one file
    // whose placeholder is bound to {app_name}; the operator just presses
    // return.  The token is replaced by "myapp" and the output directory is
    // named myapp.
    let t = Template::parse_from_str(MANIFEST).expect("well-formed manifest");
    let inputs = vec![String::from(""), String::from(""), String::from("")];
    let (answers, consumed) = collect_answers(&t.questions, &inputs).expect("script suffices");
    assert_eq!(consumed, 3);
    let contents = vec![String::from("int main() { puts(\"__APP__\"); }")];
    let out = t.apply_replacements(&answers, &contents);
    assert_eq!(out[0], "int main() { puts(\"myapp\"); }");
    assert_eq!(output_dir_name(&answers, "gtk2"), "myapp");
}

#[test]
fn output_dir_falls_back_to_template_name() {
    let mut answers = Answers::new();
    answers.insert(String::from("width"), String::from("42"));
    assert_eq!(output_dir_name(&answers, "gtk2"), "gtk2");
    assert_eq!(output_dir_name(&Answers::new(), "gtk2"), "gtk2");
}

#[test]
fn binding_strips_exactly_one_brace_pair() {
    // a bare binding resolves as its own name; a doubly braced binding keeps
    // one pair of braces in the key it looks up
    let file = File {
        file: String::from("f"),
        placeholders: vec![
            placeholder("$A$", "app_name"),
            placeholder("$B$", "{{app_name}}"),
        ],
    };
    let mut answers = Answers::new();
    answers.insert(String::from("app_name"), String::from("myapp"));
    answers.insert(String::from("{app_name}"), String::from("braced"));
    let out = kff::template::rewrite_file(&file, &answers, "$A$ $B$");
    assert_eq!(out, "myapp braced");
}

#[test]
fn empty_token_inserts_value_at_every_position() {
    // str::replace semantics for the degenerate empty token are preserved:
    // the replacement is inserted at every character boundary.
    let file = File {
        file: String::from("f"),
        placeholders: vec![placeholder("", "{v}")],
    };
    let mut answers = Answers::new();
    answers.insert(String::from("v"), String::from("-"));
    let out = kff::template::rewrite_file(&file, &answers, "abc");
    assert_eq!(out, "abc".replace("", "-"));
    assert_eq!(out, "-a-b-c-");
}
