use agent_core::llm::{ChatChoice, ChatCompletionResponse, ChatMessage, Usage};
use agent_core::session::{AppState, Message, Stats};
use agent_core::tools::ToolRegistry;

#[test]
fn stats_defaults() {
    let stats = Stats::default();
    assert_eq!(stats.total_tokens, 0);
    assert_eq!(stats.current_tpm, 0);
    assert_eq!(stats.max_tpm, 20000);
    assert_eq!(stats.input_tokens, 0);
    assert_eq!(stats.output_tokens, 0);
}

#[test]
fn app_state_defaults() {
    let state = AppState::default();
    assert_eq!(state.iteration, 0);
    assert!(state.conversation_history.is_empty());
    assert!(state.chat_input.is_empty());
    assert!(state.current_thoughts.is_empty());
    assert!(state.current_tools.is_empty());
    assert!(!state.should_quit);
    assert!(!state.success_achieved);
    assert_eq!(state.thoughts_scroll, 0);
    assert_eq!(state.tools_scroll, 0);
    assert!(!state.processing);
    assert_eq!(state.stats.max_tpm, 20000);
}

#[test]
fn messages_carry_role_and_content() {
    let m = Message {
        role: "user".to_string(),
        content: "hello".to_string(),
    };
    assert_eq!(m.role, "user");
    assert_eq!(m.content, "hello");
}

#[test]
fn system_prompt_teaches_the_wire_format() {
    let registry = ToolRegistry::new();
    let prompt = registry.get_system_prompt();
    assert!(prompt.contains("CHANGE: file/path"));
    assert!(prompt.contains("<<<<<<< CURRENT"));
    assert!(prompt.contains(">>>>>>> NEW"));
    assert!(prompt.contains("read_file"));
    assert!(prompt.contains("execute_command"));
}

#[test]
fn first_content_of_a_completion() {
    let response = ChatCompletionResponse {
        id: "r1".to_string(),
        object: "chat.completion".to_string(),
        created: 0,
        choices: vec![ChatChoice {
            index: 0,
            message: ChatMessage {
                role: "assistant".to_string(),
                content: "read_file(\"a\")".to_string(),
            },
            finish_reason: Some("stop".to_string()),
        }],
        usage: Usage {
            prompt_tokens: 10,
            completion_tokens: 5,
            total_tokens: 15,
        },
    };
    assert_eq!(response.first_content().unwrap(), "read_file(\"a\")");

    let empty = ChatCompletionResponse {
        id: "r2".to_string(),
        object: "chat.completion".to_string(),
        created: 0,
        choices: vec![],
        usage: Usage {
            prompt_tokens: 0,
            completion_tokens: 0,
            total_tokens: 0,
        },
    };
    assert!(empty.first_content().is_none());
}
