use novatype::agent::{execute, parse, AgentAction, AgentCommand};
use novatype::llm::{LlmBackend, LlmError, LlmResult};

#[test]
fn parses_translate_command() {
    let command = parse("//翻译 hello world").expect("command");

    assert_eq!(command.action, AgentAction::Translate);
    assert_eq!(command.payload, "hello world");
}

#[test]
fn parses_english_keyword() {
    let command = parse("//polish make this nicer").expect("command");
    assert_eq!(command.action, AgentAction::Polish);
}

#[test]
fn rejects_normal_input() {
    assert!(parse("nihao").is_none());
    assert!(parse("//未知 内容").is_none());
    assert!(parse("//翻译").is_none());
    assert!(parse("//翻译   ").is_none());
}

#[test]
fn prompt_contains_payload() {
    let prompt = AgentAction::Summarize.prompt("很长的一段话");
    assert!(prompt.contains("很长的一段话"));
}

#[test]
fn ideographic_space_separates_keyword() {
    let command = parse("//回复\u{3000}  明天见 ").expect("command");
    assert_eq!(command.action, AgentAction::Reply);
    assert_eq!(command.payload, "明天见");
}

#[test]
fn keywords_round_trip() {
    for action in [
        AgentAction::Translate,
        AgentAction::Polish,
        AgentAction::Reply,
        AgentAction::Summarize,
    ] {
        assert_eq!(AgentAction::from_keyword(action.keyword()), Some(action));
    }
    assert_eq!(AgentAction::from_keyword("translate"), Some(AgentAction::Translate));
    assert_eq!(AgentAction::from_keyword("润色"), Some(AgentAction::Polish));
    assert_eq!(AgentAction::from_keyword("zz"), None);
}

#[test]
fn translate_prompt_has_template_prefix() {
    let prompt = AgentAction::Translate.prompt("你好");
    assert!(prompt.ends_with("\n你好"));
    assert!(prompt.len() > "\n你好".len());
}

struct EchoBackend;

impl LlmBackend for EchoBackend {
    fn complete(&self, prompt: &str) -> LlmResult<String> {
        Ok(prompt.to_string())
    }

    fn name(&self) -> &'static str {
        "echo"
    }
}

struct FailingBackend;

impl LlmBackend for FailingBackend {
    fn complete(&self, _prompt: &str) -> LlmResult<String> {
        Err(LlmError::new("offline".to_string()))
    }

    fn name(&self) -> &'static str {
        "failing"
    }
}

#[test]
fn execute_hands_prompt_to_backend() {
    let command = AgentCommand {
        action: AgentAction::Polish,
        payload: "这段话".to_string(),
    };
    let answer = execute(&command, &EchoBackend).expect("echo");
    assert_eq!(answer, AgentAction::Polish.prompt("这段话"));
}

#[test]
fn execute_propagates_backend_error() {
    let command = parse("//summarize 内容").expect("command");
    let error = execute(&command, &FailingBackend).expect_err("must fail");
    assert_eq!(error.to_string(), "llm error: offline");
    assert_eq!(error.message(), "offline");
}

#[test]
fn typed_commands_parse_back() {
    for action in [
        AgentAction::Translate,
        AgentAction::Polish,
        AgentAction::Reply,
        AgentAction::Summarize,
    ] {
        let input = format!("//{} 明天 见", action.keyword());
        let command = parse(&input).expect("command");
        assert_eq!(command.action, action);
        assert_eq!(command.payload, "明天 见");
    }
}
