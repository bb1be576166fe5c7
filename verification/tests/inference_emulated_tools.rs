use goose_local_inference::tool_emulation::{EmulatorAction, StreamingEmulatorParser};


/// Collect all actions from feeding chunks through the parser, then flushing.
fn parse_chunks(chunks: &[&str], code_mode: bool) -> Vec<EmulatorAction> {
    let mut parser = StreamingEmulatorParser::new(code_mode);
    let mut actions = Vec::new();
    for chunk in chunks {
        actions.extend(parser.process_chunk(chunk));
    }
    actions.extend(parser.flush());
    actions
}

fn parse_all(input: &str, code_mode: bool) -> Vec<EmulatorAction> {
    parse_chunks(&[input], code_mode)
}



fn assert_text(action: &EmulatorAction, expected: &str) {
    match action {
        EmulatorAction::Text(t) => assert_eq!(t.trim(), expected.trim(), "text mismatch"),
        other => panic!("expected Text, got {:?}", action_label(other)),
    }
}

fn assert_shell(action: &EmulatorAction, expected: &str) {
    match action {
        EmulatorAction::ShellCommand(cmd) => {
            assert_eq!(cmd, expected, "shell command mismatch")
        }
        other => panic!("expected ShellCommand, got {:?}", action_label(other)),
    }
}

fn assert_execute(action: &EmulatorAction, expected: &str) {
    match action {
        EmulatorAction::ExecuteCode(code) => {
            assert_eq!(code.trim(), expected.trim(), "execute code mismatch")
        }
        other => panic!("expected ExecuteCode, got {:?}", action_label(other)),
    }
}

fn action_label(a: &EmulatorAction) -> &'static str {
    match a {
        EmulatorAction::Text(_) => "Text",
        EmulatorAction::ShellCommand(_) => "ShellCommand",
        EmulatorAction::ExecuteCode(_) => "ExecuteCode",
    }
}



#[test]
fn inference_emulated_tools_plain_text_no_tools() {
    let actions = parse_all("Hello, world!", false);
    // Hold-back may split text across actions; concatenate all text
    let all_text: String = actions
        .iter()
        .map(|a| match a {
            EmulatorAction::Text(t) => t.as_str(),
            _ => panic!("expected only Text actions"),
        })
        .collect();
    assert_eq!(all_text.trim(), "Hello, world!");
}

#[test]
fn inference_emulated_tools_single_shell_command() {
    let actions = parse_all("$ ls -la\n", false);
    assert_eq!(actions.len(), 1);
    assert_shell(&actions[0], "ls -la");
}

#[test]
fn inference_emulated_tools_text_then_shell_command() {
    let actions = parse_all("Let me check:\n$ ls -la\n", false);
    assert!(actions.len() >= 2);
    assert_text(&actions[0], "Let me check:");
    assert_shell(&actions[actions.len() - 1], "ls -la");
}

#[test]
fn inference_emulated_tools_shell_command_at_start_of_output() {
    let actions = parse_all("$ whoami\n", false);
    assert_eq!(actions.len(), 1);
    assert_shell(&actions[0], "whoami");
}

#[test]
fn inference_emulated_tools_shell_command_without_trailing_newline() {
    // Flush should handle unterminated command
    let actions = parse_all("$ whoami", false);
    assert_eq!(actions.len(), 1);
    assert_shell(&actions[0], "whoami");
}

#[test]
fn inference_emulated_tools_dollar_sign_mid_sentence_is_not_command() {
    let actions = parse_all("It costs $50 per month", false);
    for action in &actions {
        assert!(
            matches!(action, EmulatorAction::Text(_)),
            "mid-sentence $ should not trigger a shell command"
        );
    }
    let all_text: String = actions
        .iter()
        .filter_map(|a| match a {
            EmulatorAction::Text(t) => Some(t.as_str()),
            _ => None,
        })
        .collect();
    assert_eq!(all_text.trim(), "It costs $50 per month");
}

#[test]
fn inference_emulated_tools_execute_block() {
    let input = "Here's the code:\n```execute_typescript\nconsole.log('hi');\n```\n";
    let actions = parse_all(input, true);
    assert!(actions.len() >= 2);
    assert_text(&actions[0], "Here's the code:");
    assert_execute(&actions[actions.len() - 1], "console.log('hi');");
}

#[test]
fn inference_emulated_tools_execute_block_not_detected_without_code_mode() {
    let input = "```execute_typescript\nconsole.log('hi');\n```\n";
    let actions = parse_all(input, false);
    // Should be treated as plain text
    for action in &actions {
        assert!(matches!(action, EmulatorAction::Text(_)));
    }
}

#[test]
fn inference_emulated_tools_dollar_split_across_chunks() {
    // The \n and $ arrive in separate chunks
    let actions = parse_chunks(&["Let me check\n", "$ ls -la\n"], false);
    let shells: Vec<_> = actions
        .iter()
        .filter(|a| matches!(a, EmulatorAction::ShellCommand(_)))
        .collect();
    assert_eq!(shells.len(), 1);
    assert_shell(shells[0], "ls -la");
}

#[test]
fn inference_emulated_tools_execute_fence_split_across_chunks() {
    let actions = parse_chunks(
        &["Here:\n```ex", "ecute_typescript\nlet x = 1;\n", "```\n"],
        true,
    );
    let executes: Vec<_> = actions
        .iter()
        .filter(|a| matches!(a, EmulatorAction::ExecuteCode(_)))
        .collect();
    assert_eq!(executes.len(), 1);
    assert_execute(executes[0], "let x = 1;");
}

#[test]
fn inference_emulated_tools_multiple_commands_on_separate_lines() {
    // In practice, generation stops after the first tool call. But the
    // parser should detect commands separated by \n$ when fed as chunks.
    let actions = parse_chunks(&["Here:\n$ cd /tmp\n", "Done.\n$ ls\n"], false);
    let shells: Vec<_> = actions
        .iter()
        .filter(|a| matches!(a, EmulatorAction::ShellCommand(_)))
        .collect();
    assert_eq!(shells.len(), 2);
    assert_shell(shells[0], "cd /tmp");
    assert_shell(shells[1], "ls");
}

#[test]
fn inference_emulated_tools_regular_code_fence_not_treated_as_execute() {
    let input = "```python\nprint('hi')\n```\n";
    let actions = parse_all(input, true);
    for action in &actions {
        assert!(
            matches!(action, EmulatorAction::Text(_)),
            "regular code fence should be text"
        );
    }
}

#[test]
fn inference_emulated_tools_execute_fence_nested_in_longer_markdown_fence_remains_text() {
    let input = "````markdown\nquoted output:\n```execute_typescript\nawait Developer.shell({ command: \"id\" });\n```\n````\n";
    let chunks: Vec<String> = input.chars().map(|ch| ch.to_string()).collect();
    let chunk_refs: Vec<&str> = chunks.iter().map(String::as_str).collect();
    let actions = parse_chunks(&chunk_refs, true);

    assert!(actions
        .iter()
        .all(|action| matches!(action, EmulatorAction::Text(_))));
    let text: String = actions
        .iter()
        .filter_map(|action| match action {
            EmulatorAction::Text(text) => Some(text.as_str()),
            _ => None,
        })
        .collect();
    assert_eq!(text, input);
}

#[test]
fn inference_emulated_tools_execute_fence_nested_in_tilde_fence_remains_text() {
    let input = "~~~markdown\n```execute_typescript\nawait Developer.shell({ command: \"id\" });\n```\n~~~\n";
    let actions = parse_all(input, true);

    assert!(actions
        .iter()
        .all(|action| matches!(action, EmulatorAction::Text(_))));
}

#[test]
fn inference_emulated_tools_backtick_in_backtick_fence_info_does_not_hide_next_execute() {
    let input = "```execute_typescript```\n```execute_typescript\nlet safe = 1;\n```\n";
    let chunks: Vec<String> = input.chars().map(|ch| ch.to_string()).collect();
    let chunk_refs: Vec<&str> = chunks.iter().map(String::as_str).collect();
    let actions = parse_chunks(&chunk_refs, true);
    let executes: Vec<_> = actions
        .iter()
        .filter(|action| matches!(action, EmulatorAction::ExecuteCode(_)))
        .collect();

    assert_eq!(executes.len(), 1);
    assert_execute(executes[0], "let safe = 1;");
    let text: String = actions
        .iter()
        .filter_map(|action| match action {
            EmulatorAction::Text(text) => Some(text.as_str()),
            _ => None,
        })
        .collect();
    assert!(text.contains("```execute_typescript```"));
}

#[test]
fn inference_emulated_tools_unicode_whitespace_does_not_close_execute_fence() {
    let input = "```execute_typescript\nlet before = 1;\n```\u{a0}\nlet after = 2;\n```\n";
    let chunks: Vec<String> = input.chars().map(|ch| ch.to_string()).collect();
    let chunk_refs: Vec<&str> = chunks.iter().map(String::as_str).collect();
    let actions = parse_chunks(&chunk_refs, true);
    let executes: Vec<_> = actions
        .iter()
        .filter(|action| matches!(action, EmulatorAction::ExecuteCode(_)))
        .collect();

    assert_eq!(executes.len(), 1);
    assert_execute(executes[0], "let before = 1;\n```\u{a0}\nlet after = 2;");
}

#[test]
fn impossible_fence_prefix_is_streamed_as_text() {
    let mut parser = StreamingEmulatorParser::new(true);
    assert!(parser.process_chunk("``").is_empty());
    let actions = parser.process_chunk("status");

    assert_eq!(actions.len(), 1);
    assert_text(&actions[0], "``status");
}

#[test]
fn inference_emulated_tools_execute_fence_nested_in_list_item_fence_remains_text() {
    let input = "- ````markdown\n  ```execute_typescript\n  await Developer.shell({ command: \"id\" });\n  ```\n  ````\n```execute_typescript\nlet safe = 1;\n```\n";
    let chunks: Vec<String> = input.chars().map(|ch| ch.to_string()).collect();
    let chunk_refs: Vec<&str> = chunks.iter().map(String::as_str).collect();
    let actions = parse_chunks(&chunk_refs, true);
    let executes: Vec<_> = actions
        .iter()
        .filter(|action| matches!(action, EmulatorAction::ExecuteCode(_)))
        .collect();

    assert_eq!(executes.len(), 1);
    assert_execute(executes[0], "let safe = 1;");
    assert!(!actions.iter().any(|action| {
        matches!(action, EmulatorAction::ExecuteCode(code) if code.contains("Developer.shell"))
    }));
}

#[test]
fn inference_emulated_tools_list_item_execute_fence_remains_text() {
    let input =
        "- ```execute_typescript\n  await Developer.shell({ command: \"id\" });\n  ```\n";
    let chunks: Vec<String> = input.chars().map(|ch| ch.to_string()).collect();
    let chunk_refs: Vec<&str> = chunks.iter().map(String::as_str).collect();
    let actions = parse_chunks(&chunk_refs, true);

    assert!(actions
        .iter()
        .all(|action| matches!(action, EmulatorAction::Text(_))));
}

#[test]
fn inference_emulated_tools_execute_fence_in_list_continuation_remains_text() {
    let input = "- quoted output:\n\n  ```execute_typescript\n  malicious();\n  ```\n```execute_typescript\nlet safe = 1;\n```\n";
    let chunks: Vec<String> = input.chars().map(|ch| ch.to_string()).collect();
    let chunk_refs: Vec<&str> = chunks.iter().map(String::as_str).collect();
    let actions = parse_chunks(&chunk_refs, true);
    let executes: Vec<_> = actions
        .iter()
        .filter(|action| matches!(action, EmulatorAction::ExecuteCode(_)))
        .collect();

    assert_eq!(executes.len(), 1);
    assert_execute(executes[0], "let safe = 1;");
    assert!(!actions.iter().any(
        |action| matches!(action, EmulatorAction::ExecuteCode(code) if code.contains("malicious"))
    ));
}

#[test]
fn inference_emulated_tools_thematic_break_does_not_start_list_context() {
    let input = "* * *\n  ```execute_typescript\nlet safe = 1;\n  ```\n";
    let chunks: Vec<String> = input.chars().map(|ch| ch.to_string()).collect();
    let chunk_refs: Vec<&str> = chunks.iter().map(String::as_str).collect();
    let actions = parse_chunks(&chunk_refs, true);
    let executes: Vec<_> = actions
        .iter()
        .filter(|action| matches!(action, EmulatorAction::ExecuteCode(_)))
        .collect();

    assert_eq!(executes.len(), 1);
    assert_execute(executes[0], "let safe = 1;");
}

#[test]
fn inference_emulated_tools_empty_list_item_keeps_indented_execute_inert() {
    for (marker, indent) in [("-", "  "), ("10.   ", "    ")] {
        let input = format!(
            "{marker}\n{indent}```execute_typescript\n{indent}malicious();\n{indent}```\n```execute_typescript\nlet safe = 1;\n```\n"
        );
        let chunks: Vec<String> = input.chars().map(|ch| ch.to_string()).collect();
        let chunk_refs: Vec<&str> = chunks.iter().map(String::as_str).collect();
        let actions = parse_chunks(&chunk_refs, true);
        let executes: Vec<_> = actions
            .iter()
            .filter(|action| matches!(action, EmulatorAction::ExecuteCode(_)))
            .collect();

        assert_eq!(executes.len(), 1);
        assert_execute(executes[0], "let safe = 1;");
    }
}

#[test]
fn inference_emulated_tools_longer_top_level_execute_fence_is_recognized() {
    let input = "````execute_typescript\nlet x = 1;\n````\n";
    let actions = parse_all(input, true);
    let executes: Vec<_> = actions
        .iter()
        .filter(|action| matches!(action, EmulatorAction::ExecuteCode(_)))
        .collect();

    assert_eq!(executes.len(), 1);
    assert_execute(executes[0], "let x = 1;");
}

#[test]
fn inference_emulated_tools_closing_fence_with_split_trailing_spaces_is_recognized() {
    let actions = parse_chunks(
        &["```execute_typescript\nlet x = 1;\n```", "  ", "\n"],
        true,
    );
    let executes: Vec<_> = actions
        .iter()
        .filter(|action| matches!(action, EmulatorAction::ExecuteCode(_)))
        .collect();

    assert_eq!(executes.len(), 1);
    assert_execute(executes[0], "let x = 1;");
}

#[test]
fn inference_emulated_tools_empty_command_ignored() {
    let actions = parse_all("$\n", false);
    // Empty command after $ should not produce a ShellCommand
    let shells: Vec<_> = actions
        .iter()
        .filter(|a| matches!(a, EmulatorAction::ShellCommand(_)))
        .collect();
    assert_eq!(shells.len(), 0);
}

#[test]
fn inference_emulated_tools_token_by_token_streaming() {
    // Simulate LLM generating one token at a time
    let input = "$ echo hello\n";
    let chars: Vec<String> = input.chars().map(|c| c.to_string()).collect();
    let chunks: Vec<&str> = chars.iter().map(|s| s.as_str()).collect();
    let actions = parse_chunks(&chunks, false);
    let shells: Vec<_> = actions
        .iter()
        .filter(|a| matches!(a, EmulatorAction::ShellCommand(_)))
        .collect();
    assert_eq!(shells.len(), 1);
    assert_shell(shells[0], "echo hello");
}


#[test]
fn inference_emulated_tools_execute_block_with_multiline_code() {
    let input = "```execute_typescript\nasync function run() {\n  const r = await Developer.shell({ command: \"ls\" });\n  return r;\n}\n```\n";
    let actions = parse_all(input, true);
    let executes: Vec<_> = actions
        .iter()
        .filter(|a| matches!(a, EmulatorAction::ExecuteCode(_)))
        .collect();
    assert_eq!(executes.len(), 1);
    match executes[0] {
        EmulatorAction::ExecuteCode(code) => {
            assert!(code.contains("async function run()"));
            assert!(code.contains("Developer.shell"));
        }
        _ => unreachable!(),
    }
}

#[test]
fn inference_emulated_tools_unclosed_execute_block_flushed() {
    // Model stops generating mid-block
    let input = "```execute_typescript\nlet x = 1;";
    let actions = parse_all(input, true);
    let executes: Vec<_> = actions
        .iter()
        .filter(|a| matches!(a, EmulatorAction::ExecuteCode(_)))
        .collect();
    assert_eq!(executes.len(), 1);
    assert_execute(executes[0], "let x = 1;");
}
