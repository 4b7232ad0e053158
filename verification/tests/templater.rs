use flowcore::json::Json;
use flowcore::templater::{Templater, ValidationFieldType, Validations};

fn obj(entries: Vec<(&str, Json)>) -> Json {
    Json::Obj(entries.into_iter().map(|(k, v)| (k.to_string(), v)).collect())
}

fn s(text: &str) -> Json {
    Json::Str(text.to_string())
}

fn n(text: &str) -> Json {
    Json::Num(text.to_string())
}

#[test]
fn string_variable_replacement() {
    let mut templater = Templater::new();

    let template = obj(vec![("greeting", s("Hello {{variables.name}}"))]);
    templater.add_template("test_template", template);

    let context = obj(vec![("variables", obj(vec![("name", s("World"))]))]);

    let mut validations = Validations::new();
    validations.insert("name", ValidationFieldType::String);

    let result = templater
        .render("test_template", &context, &validations)
        .unwrap();

    assert_eq!(result, obj(vec![("greeting", s("Hello World"))]));
}

#[test]
fn string_variable_replacement_with_type_coercion_from_number() {
    let mut templater = Templater::new();

    let template = obj(vec![("greeting", s("{{variables.name}}"))]);
    templater.add_template("test_template", template);

    let context = obj(vec![("variables", obj(vec![("name", n("42"))]))]);

    let mut validations = Validations::new();
    validations.insert("name", ValidationFieldType::String);

    let result = templater
        .render("test_template", &context, &validations)
        .unwrap();

    assert_eq!(result, obj(vec![("greeting", s("42"))]));
}

#[test]
fn number_variable_replacement_with_type_coercion_from_string() {
    let mut templater = Templater::new();

    let template = obj(vec![("greeting", s("{{variables.name}}"))]);
    templater.add_template("test_template", template);

    let context = obj(vec![("variables", obj(vec![("name", s("42"))]))]);

    let mut validations = Validations::new();
    validations.insert("name", ValidationFieldType::Number);

    let result = templater
        .render("test_template", &context, &validations)
        .unwrap();

    assert_eq!(result, obj(vec![("greeting", n("42"))]));
}

#[test]
fn object_variable_replacement() {
    let mut templater = Templater::new();

    let template = obj(vec![("an_object", s("{{variables.the_object}}"))]);
    templater.add_template("test_template", template);

    let context = obj(vec![(
        "variables",
        obj(vec![("the_object", obj(vec![("a_number", n("42"))]))]),
    )]);

    let mut validations = Validations::new();
    validations.insert("the_object", ValidationFieldType::Object);

    let result = templater
        .render("test_template", &context, &validations)
        .unwrap();

    assert_eq!(
        result,
        obj(vec![("an_object", obj(vec![("a_number", n("42"))]))])
    );
}

#[test]
fn complicated_replacement() {
    let mut templater = Templater::new();

    let template = obj(vec![
        ("an_object", s("{{variables.the_object}}")),
        ("a_number", s("{{variables.a_number}}")),
        ("a_string", s("{{variables.a_string}}")),
        ("a_boolean", s("{{variables.a_boolean}}")),
        ("an_array", s("{{variables.an_array}}")),
        ("a_null", s("{{variables.a_null}}")),
        ("a_float", s("{{variables.a_float}}")),
        ("a_number_string", s("{{variables.a_number_string}}")),
        ("a_boolean_string", s("{{variables.a_boolean_string}}")),
    ]);
    templater.add_template("test_template", template);

    let context = obj(vec![(
        "variables",
        obj(vec![
            ("the_object", obj(vec![("a_number", n("42"))])),
            ("a_number", n("43")),
            ("a_string", s("hello")),
            ("a_boolean", Json::Bool(true)),
            ("an_array", Json::Arr(vec![n("1"), n("2"), n("3")])),
            ("a_null", Json::Null),
            ("a_float", n("1.23")),
            ("a_number_string", s("44")),
            ("a_boolean_string", s("true")),
            ("a_array_string", s("[1, 2, 3]")),
        ]),
    )]);

    let mut validations = Validations::new();
    validations.insert("the_object", ValidationFieldType::Object);
    validations.insert("a_number", ValidationFieldType::Number);
    validations.insert("a_string", ValidationFieldType::String);
    validations.insert("a_boolean", ValidationFieldType::Boolean);
    validations.insert("an_array", ValidationFieldType::Array);
    validations.insert("a_null", ValidationFieldType::Null);
    validations.insert("a_float", ValidationFieldType::Number);
    validations.insert("a_number_string", ValidationFieldType::String);
    validations.insert("a_boolean_string", ValidationFieldType::String);
    validations.insert("a_array_string", ValidationFieldType::String);

    let result = templater
        .render("test_template", &context, &validations)
        .unwrap();

    assert_eq!(
        result,
        obj(vec![
            ("an_object", obj(vec![("a_number", n("42"))])),
            ("a_number", n("43")),
            ("a_string", s("hello")),
            ("a_boolean", Json::Bool(true)),
            ("an_array", Json::Arr(vec![n("1"), n("2"), n("3")])),
            ("a_null", Json::Null),
            ("a_float", n("1.23")),
            ("a_number_string", s("44")),
            ("a_boolean_string", s("true")),
        ])
    );
}

#[test]
fn template_without_placeholders_renders_to_itself() {
    let mut templater = Templater::new();
    let template = obj(vec![
        ("plain", s("no braces here")),
        ("nested", Json::Arr(vec![n("7"), Json::Bool(false), Json::Null])),
    ]);
    templater.add_template("t", template.clone());

    let context = obj(vec![("variables", obj(vec![("unused", n("1"))]))]);
    let validations = Validations::new();

    let result = templater.render("t", &context, &validations).unwrap();
    assert_eq!(result, template);
}

#[test]
fn whole_placeholder_keeps_value_shape_without_validation() {
    let mut templater = Templater::new();
    templater.add_template("t", obj(vec![("v", s("  {{variables.list}}  "))]));

    let list = Json::Arr(vec![n("1"), s("two"), Json::Null]);
    let context = obj(vec![("variables", obj(vec![("list", list.clone())]))]);
    let validations = Validations::new();

    let result = templater.render("t", &context, &validations).unwrap();
    assert_eq!(result, obj(vec![("v", list)]));
}

#[test]
fn json_in_string_reentry_resolves_nested_field() {
    let mut templater = Templater::new();
    templater.add_template("t", obj(vec![("x", s("{{variables.blob.x}}"))]));

    let context = obj(vec![(
        "variables",
        obj(vec![("blob", s("{\"x\": 5, \"y\": [1,2]}"))]),
    )]);
    let validations = Validations::new();

    let result = templater.render("t", &context, &validations).unwrap();
    assert_eq!(result, obj(vec![("x", n("5"))]));
}

#[test]
fn indexed_path_segment_selects_array_element() {
    let mut templater = Templater::new();
    templater.add_template("t", obj(vec![("second", s("{{variables.items[1]}}"))]));

    let context = obj(vec![(
        "variables",
        obj(vec![("items", Json::Arr(vec![s("a"), s("b"), s("c")]))]),
    )]);
    let validations = Validations::new();

    let result = templater.render("t", &context, &validations).unwrap();
    assert_eq!(result, obj(vec![("second", s("b"))]));
}

#[test]
fn get_template_variables_lists_paths_in_order_with_duplicates() {
    let mut templater = Templater::new();
    templater.add_template(
        "t",
        obj(vec![(
            "a",
            s("{{variables.x}} and {{variables.y}} and {{variables.x}}"),
        )]),
    );

    let vars = templater.get_template_variables("t").unwrap();
    assert_eq!(vars, vec!["variables.x", "variables.y", "variables.x"]);
}

#[test]
fn missing_template_is_reported() {
    let templater = Templater::new();
    let err = templater.get_template_variables("absent").unwrap_err();
    assert_eq!(err.message, "Template not found");
    assert_eq!(err.variable, "absent");
}

#[test]
fn unclosed_placeholder_is_reported() {
    let mut templater = Templater::new();
    templater.add_template("t", obj(vec![("a", s("oops {{variables.x"))]));
    let err = templater.get_template_variables("t").unwrap_err();
    assert_eq!(err.message, "Unclosed template variable");
    assert_eq!(err.variable, "oops {{variables.x");
}

#[test]
fn unknown_path_in_interpolation_fails() {
    let mut templater = Templater::new();
    templater.add_template("t", obj(vec![("a", s("hi {{variables.absent}}!"))]));
    let context = obj(vec![("variables", obj(vec![("x", n("1"))]))]);
    let validations = Validations::new();

    let err = templater.render("t", &context, &validations).unwrap_err();
    assert_eq!(err.message, "Variable not found in context");
    assert_eq!(err.variable, "variables.absent");
}

#[test]
fn number_validation_rejects_non_numeric_text() {
    let mut templater = Templater::new();
    templater.add_template("t", obj(vec![("a", s("{{variables.x}}"))]));
    let context = obj(vec![("variables", obj(vec![("x", s("not a number"))]))]);
    let mut validations = Validations::new();
    validations.insert("x", ValidationFieldType::Number);

    let err = templater.render("t", &context, &validations).unwrap_err();
    assert_eq!(err.message, "Cannot convert value to number: not a number");
    assert_eq!(err.variable, "variables.x");
}

#[test]
fn object_validation_rejects_other_shapes() {
    let mut templater = Templater::new();
    templater.add_template("t", obj(vec![("a", s("{{variables.x}}"))]));
    let context = obj(vec![("variables", obj(vec![("x", n("3"))]))]);
    let mut validations = Validations::new();
    validations.insert("x", ValidationFieldType::Object);

    let err = templater.render("t", &context, &validations).unwrap_err();
    assert_eq!(err.message, "Expected object, got: 3");
    assert_eq!(err.variable, "variables.x");
}

#[test]
fn interpolation_splices_json_text_of_values() {
    let mut templater = Templater::new();
    templater.add_template("t", obj(vec![("a", s("got {{variables.x}}."))]));
    let context = obj(vec![(
        "variables",
        obj(vec![("x", obj(vec![("k", Json::Bool(true))]))]),
    )]);
    let validations = Validations::new();

    let result = templater.render("t", &context, &validations).unwrap();
    assert_eq!(result, obj(vec![("a", s("got {\"k\":true}."))]));
}

#[test]
fn to_text_writes_compact_json() {
    let value = obj(vec![
        ("a", Json::Arr(vec![n("1"), s("x\"y"), Json::Null])),
        ("b", Json::Bool(false)),
    ]);
    assert_eq!(value.to_text(), "{\"a\":[1,\"x\\\"y\",null],\"b\":false}");
}

#[test]
fn render_is_structural_over_arrays_and_objects() {
    let context = obj(vec![("variables", obj(vec![("x", n("9"))]))]);
    let validations = Validations::new();

    let leaf_a = s("{{variables.x}}");
    let leaf_b = s("plain");

    let mut whole = Templater::new();
    whole.add_template(
        "t",
        obj(vec![(
            "wrap",
            Json::Arr(vec![leaf_a.clone(), leaf_b.clone()]),
        )]),
    );
    let rendered_whole = whole.render("t", &context, &validations).unwrap();

    let mut part = Templater::new();
    part.add_template("a", leaf_a);
    part.add_template("b", leaf_b);
    let rendered_a = part.render("a", &context, &validations).unwrap();
    let rendered_b = part.render("b", &context, &validations).unwrap();

    assert_eq!(
        rendered_whole,
        obj(vec![("wrap", Json::Arr(vec![rendered_a, rendered_b]))])
    );
}

#[test]
fn several_placeholders_in_one_leaf_always_interpolate() {
    let mut templater = Templater::new();
    templater.add_template("t", obj(vec![("a", s("{{a}} x {{b}}"))]));
    let validations = Validations::new();

    let context = obj(vec![("a", n("1")), ("b", n("2"))]);
    let result = templater.render("t", &context, &validations).unwrap();
    assert_eq!(result, obj(vec![("a", s("1 x 2"))]));

    let tricky_context = obj(vec![("a}} x {{b", n("7"))]);
    let err = templater.render("t", &tricky_context, &validations).unwrap_err();
    assert_eq!(err.message, "Variable not found in context");
    assert_eq!(err.variable, "a");
}

fn coerce_number(text: &str) -> Result<Json, String> {
    let mut templater = Templater::new();
    templater.add_template("t", obj(vec![("v", s("{{variables.x}}"))]));
    let context = obj(vec![("variables", obj(vec![("x", s(text))]))]);
    let mut validations = Validations::new();
    validations.insert("x", ValidationFieldType::Number);
    match templater.render("t", &context, &validations) {
        Ok(rendered) => match rendered {
            Json::Obj(entries) => Ok(entries.into_iter().next().unwrap().1),
            other => panic!("expected an object, got {:?}", other),
        },
        Err(e) => Err(e.message),
    }
}

#[test]
fn number_coercion_normalizes_decimal_float_texts() {
    // A string that is itself a JSON number is turned into a number earlier,
    // by the JSON-in-string re-entry of path resolution; what reaches number
    // coercion as a string is a decimal float text outside JSON syntax, and
    // coercion brings it to JSON-number form.
    let cases = vec![
        (".5", "0.5"),
        ("+5", "5"),
        ("5.", "5"),
        ("007", "7"),
        ("+.5", "0.5"),
        ("-5.", "-5"),
        ("-.25e2", "-0.25e2"),
        ("+17976931348623158e292", "17976931348623158e292"),
    ];
    for (text, expected) in cases {
        assert_eq!(coerce_number(text).unwrap(), n(expected), "text {:?}", text);
    }
}

#[test]
fn number_coercion_rejects_malformed_and_overflowing_texts() {
    let cases = vec![
        "inf",
        "NaN",
        "",
        "not a number",
        "1.2.3",
        "1e999",
        "-2e308",
        "+17976931348623159e292",
    ];
    for text in cases {
        assert_eq!(
            coerce_number(text).unwrap_err(),
            format!("Cannot convert value to number: {}", text),
            "text {:?}",
            text
        );
    }
}

#[test]
fn json_number_strings_arrive_as_numbers_through_reentry() {
    let mut templater = Templater::new();
    templater.add_template("t", obj(vec![("v", s("{{variables.x}}"))]));
    let context = obj(vec![("variables", obj(vec![("x", s("42"))]))]);
    let mut validations = Validations::new();
    validations.insert("x", ValidationFieldType::Number);
    let result = templater.render("t", &context, &validations).unwrap();
    assert_eq!(result, obj(vec![("v", n("42"))]));
}
