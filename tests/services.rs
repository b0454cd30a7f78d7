use stack_scope::linter::{analysis_report, latest_change, analysis_messages, MessageKind};
use stack_scope::tool::{Person, StringLengthArgs, StringLengthError, StringLengthTool};

#[test]
fn test_string_length_tool_definition() {
    let tool = StringLengthTool;
    let definition = tool.definition("".to_string());
    assert_eq!(definition.name, "string_length");
    assert!(definition.description.contains("length"));
    assert_eq!(definition.parameters.len(), 1);
    assert_eq!(definition.parameters[0].name, "text");
    assert!(definition.parameters[0].required);
    assert_eq!(StringLengthTool::NAME, "string_length");
}

#[test]
fn test_string_length_tool_call() {
    let tool = StringLengthTool;
    let args = StringLengthArgs { text: "Hello, Rig!".to_string() };
    let result = tool.call(args).unwrap();
    assert_eq!(result, 11);
}

#[test]
fn string_length_counts_bytes() {
    let tool = StringLengthTool;
    assert_eq!(tool.call(StringLengthArgs { text: "山田".to_string() }), Ok(6));
    assert_eq!(tool.call(StringLengthArgs { text: String::new() }), Ok(0));
    assert_eq!(StringLengthError.message(), "String length error");
}

#[test]
fn person_fields() {
    let person = Person {
        name: Some("山田太郎".to_string()),
        age: Some(32),
        occupation: Some("ソフトウェアエンジニア".to_string()),
    };
    assert_eq!(person.age, Some(32));
}

#[test]
fn reports_of_analyses() {
    let ok = analysis_report(Ok("fine".to_string()));
    assert_eq!(ok.kind, MessageKind::Info);
    assert_eq!(ok.text, "fine");
    let err = analysis_report(Err("timeout".to_string()));
    assert_eq!(err.kind, MessageKind::Error);
    assert_eq!(err.text, "Analysis failed: timeout");
}

#[test]
fn last_change_is_analysed() {
    assert_eq!(latest_change(&vec![]), None);
    assert_eq!(latest_change(&vec!["a".to_string(), "b".to_string()]), Some(1));
}

#[test]
fn analysis_request_messages() {
    let m = analysis_messages("fn main() {}");
    assert_eq!(m.len(), 2);
    assert_eq!(m[0].role, "system");
    assert!(m[0].content.contains("コード品質"));
    assert_eq!(m[1].role, "user");
    assert_eq!(m[1].content, "fn main() {}");
}
