use libchickadee::json::{Json, Number};
use libchickadee::output::{
    project, project_records, project_value, select_members, write_selection, written_line,
    OutputError,
};

fn sample_record() -> String {
    String::from(
        "{\"query\":\"1.1.1.1\",\"status\":\"success\",\"city\":\"South Brisbane\",\"lat\":-27.4766,\"offset\":36000,\"mobile\":false}",
    )
}

#[test]
fn projection_keeps_exactly_the_selected_members() {
    let columns = Some(vec![String::from("query"), String::from("city")]);
    let line = project(&sample_record(), &columns);
    assert_eq!(
        Ok(String::from("{\"city\":\"South Brisbane\",\"query\":\"1.1.1.1\"}")),
        line
    );
}

#[test]
fn projection_ignores_unknown_names() {
    let with_unknown = Some(vec![String::from("query"), String::from("bogus")]);
    let without = Some(vec![String::from("query")]);
    let a = project(&sample_record(), &with_unknown);
    let b = project(&sample_record(), &without);
    assert_eq!(Ok(String::from("{\"query\":\"1.1.1.1\"}")), a);
    assert_eq!(a, b);
}

#[test]
fn projection_keeps_the_type_of_each_value() {
    let columns = Some(vec![
        String::from("lat"),
        String::from("offset"),
        String::from("mobile"),
        String::from("query"),
    ]);
    let line = project(&sample_record(), &columns);
    assert_eq!(
        Ok(String::from(
            "{\"lat\":-27.4766,\"mobile\":false,\"offset\":36000,\"query\":\"1.1.1.1\"}"
        )),
        line
    );
}

#[test]
fn without_a_selection_the_record_passes_unchanged() {
    let record = String::from("{ \"b\" : 1, \"a\" : [1, 2, {\"c\": null}] }");
    assert_eq!(Ok(record.clone()), project(&record, &None));
    let not_json = String::from("no json at all");
    assert_eq!(Ok(not_json.clone()), project(&not_json, &None));
}

#[test]
fn nested_values_are_carried_through() {
    let record = String::from("{\"a\":[1,2,{\"c\":null}],\"b\":{\"d\":\"e\"},\"z\":1.5}");
    let columns = Some(vec![String::from("a"), String::from("b")]);
    assert_eq!(
        Ok(String::from("{\"a\":[1,2,{\"c\":null}],\"b\":{\"d\":\"e\"}}")),
        project(&record, &columns)
    );
}

#[test]
fn empty_selection_gives_an_empty_object() {
    assert_eq!(Ok(String::from("{}")), project(&sample_record(), &Some(vec![])));
}

#[test]
fn text_that_is_no_json_is_reported() {
    let columns = Some(vec![String::from("query")]);
    let line = project("not json", &columns);
    assert_eq!(
        Err(OutputError::NotAnObject { record: String::from("not json") }),
        line
    );
    assert_eq!(
        "Error parsing JSON object: not json",
        line.unwrap_err().message()
    );
}

#[test]
fn json_that_is_no_object_is_reported() {
    let columns = Some(vec![String::from("query")]);
    assert_eq!(
        Err(OutputError::NotAnObject { record: String::from("[1,2]") }),
        project("[1,2]", &columns)
    );
    assert_eq!(
        Err(OutputError::NotAnObject { record: String::from("\"query\"") }),
        project("\"query\"", &columns)
    );
}

#[test]
fn unwritable_message_names_the_reason() {
    let error = OutputError::Unwritable { reason: String::from("key must be a string") };
    assert_eq!("Unable to display record: key must be a string", error.message());
}

#[test]
fn a_bad_record_does_not_stop_the_others() {
    let records = vec![
        String::from("{\"query\":\"1.1.1.1\",\"city\":\"A\"}"),
        String::from("oops"),
        String::from("{\"query\":\"2.2.2.2\",\"city\":\"B\"}"),
    ];
    let columns = Some(vec![String::from("query")]);
    let lines = project_records(&records, &columns);
    assert_eq!(
        vec![
            Ok(String::from("{\"query\":\"1.1.1.1\"}")),
            Err(OutputError::NotAnObject { record: String::from("oops") }),
            Ok(String::from("{\"query\":\"2.2.2.2\"}")),
        ],
        lines
    );
}

#[test]
fn select_members_keeps_order_and_repeats() {
    let members = vec![
        (String::from("b"), Json::Number(Number::PosInt(1))),
        (String::from("a"), Json::Null),
        (String::from("b"), Json::Bool(true)),
        (String::from("c"), Json::String(String::from("x"))),
    ];
    let kept = select_members(members, &vec![String::from("c"), String::from("b")]);
    assert_eq!(
        vec![
            (String::from("b"), Json::Number(Number::PosInt(1))),
            (String::from("b"), Json::Bool(true)),
            (String::from("c"), Json::String(String::from("x"))),
        ],
        kept
    );
}

#[test]
fn project_value_refuses_what_is_no_object() {
    let columns = vec![String::from("a")];
    assert_eq!(None, project_value(Json::Array(vec![]), &columns));
    assert_eq!(None, project_value(Json::Null, &columns));
    assert_eq!(
        Some(Json::Object(vec![(String::from("a"), Json::Null)])),
        project_value(
            Json::Object(vec![
                (String::from("a"), Json::Null),
                (String::from("b"), Json::Null)
            ]),
            &columns
        )
    );
}

#[test]
fn an_object_that_cannot_be_written_is_reported() {
    assert_eq!(Ok(String::from("{}")), written_line(Ok(String::from("{}"))));
    assert_eq!(
        Err(OutputError::Unwritable { reason: String::from("no") }),
        written_line(Err(String::from("no")))
    );
}

#[test]
fn write_selection_goes_by_what_was_read() {
    let columns = vec![String::from("a")];
    assert_eq!(
        Ok(String::from("{\"a\":1}")),
        write_selection(
            "x",
            Ok(Json::Object(vec![
                (String::from("a"), Json::Number(Number::PosInt(1))),
                (String::from("b"), Json::Null)
            ])),
            &columns
        )
    );
    assert_eq!(
        Err(OutputError::NotAnObject { record: String::from("x") }),
        write_selection("x", Ok(Json::Bool(true)), &columns)
    );
    assert_eq!(
        Err(OutputError::NotAnObject { record: String::from("x") }),
        write_selection("x", Err(String::from("eof")), &columns)
    );
}
