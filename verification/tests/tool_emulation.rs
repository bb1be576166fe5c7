use goose_local_inference::markdown::parse_fence;
use goose_local_inference::tool_emulation::{
    build_emulator_tool_description, EmulatorAction, StreamingEmulatorParser,
};


fn parse_chunks(chunks: &[&str], code_mode: bool) -> Vec<EmulatorAction> {
    let mut parser = StreamingEmulatorParser::new(code_mode);
    let mut actions = Vec::new();
    for chunk in chunks {
        actions.extend(parser.process_chunk(chunk));
    }
    actions.extend(parser.flush());
    actions
}

fn parse_all(input: &str, code_mode: bool) -> Vec<EmulatorAction> {
    parse_chunks(&[input], code_mode)
}

fn assert_text(action: &EmulatorAction, expected: &str) {
    match action {
        EmulatorAction::Text(t) => assert_eq!(t.trim(), expected.trim(), "text mismatch"),
        other => panic!("expected Text, got {:?}", action_label(other)),
    }
}

fn assert_shell(action: &EmulatorAction, expected: &str) {
    match action {
        EmulatorAction::ShellCommand(cmd) => {
            assert_eq!(cmd, expected, "shell command mismatch")
        }
        other => panic!("expected ShellCommand, got {:?}", action_label(other)),
    }
}

fn assert_execute(action: &EmulatorAction, expected: &str) {
    match action {
        EmulatorAction::ExecuteCode(code) => {
            assert_eq!(code.trim(), expected.trim(), "execute code mismatch")
        }
        other => panic!("expected ExecuteCode, got {:?}", action_label(other)),
    }
}

fn action_label(a: &EmulatorAction) -> &'static str {
    match a {
        EmulatorAction::Text(_) => "Text",
        EmulatorAction::ShellCommand(_) => "ShellCommand",
        EmulatorAction::ExecuteCode(_) => "ExecuteCode",
    }
}

#[test]
fn tool_emulation_plain_text_no_tools() {
    let actions = parse_all("Hello, world!", false);
    let all_text: String = actions
        .iter()
        .map(|a| match a {
            EmulatorAction::Text(t) => t.as_str(),
            _ => panic!("expected only Text actions"),
        })
        .collect();
    assert_eq!(all_text.trim(), "Hello, world!");
}

#[test]
fn tool_emulation_single_shell_command() {
    let actions = parse_all("$ ls -la\n", false);
    assert_eq!(actions.len(), 1);
    assert_shell(&actions[0], "ls -la");
}

#[test]
fn tool_emulation_text_then_shell_command() {
    let actions = parse_all("Let me check:\n$ ls -la\n", false);
    assert!(actions.len() >= 2);
    assert_text(&actions[0], "Let me check:");
    assert_shell(&actions[actions.len() - 1], "ls -la");
}

#[test]
fn tool_emulation_shell_command_at_start_of_output() {
    let actions = parse_all("$ whoami\n", false);
    assert_eq!(actions.len(), 1);
    assert_shell(&actions[0], "whoami");
}

#[test]
fn tool_emulation_shell_command_without_trailing_newline() {
    let actions = parse_all("$ whoami", false);
    assert_eq!(actions.len(), 1);
    assert_shell(&actions[0], "whoami");
}

#[test]
fn tool_emulation_dollar_sign_mid_sentence_is_not_command() {
    let actions = parse_all("It costs $50 per month", false);
    for action in &actions {
        assert!(matches!(action, EmulatorAction::Text(_)));
    }
    let all_text: String = actions
        .iter()
        .filter_map(|a| match a {
            EmulatorAction::Text(t) => Some(t.as_str()),
            _ => None,
        })
        .collect();
    assert_eq!(all_text.trim(), "It costs $50 per month");
}

#[test]
fn tool_emulation_execute_block() {
    let input = "Here's the code:\n```execute_typescript\nconsole.log('hi');\n```\n";
    let actions = parse_all(input, true);
    assert!(actions.len() >= 2);
    assert_text(&actions[0], "Here's the code:");
    assert_execute(&actions[actions.len() - 1], "console.log('hi');");
}

#[test]
fn tool_description_uses_parser_execute_fence() {
    let description = build_emulator_tool_description(&[], true);

    assert!(description.contains("```execute_typescript"));
    assert!(!description.contains("```execute block"));
    assert!(!description.contains("Use ```execute for tool calls"));
}

#[test]
fn tool_emulation_execute_block_not_detected_without_code_mode() {
    let input = "```execute_typescript\nconsole.log('hi');\n```\n";
    let actions = parse_all(input, false);
    for action in &actions {
        assert!(matches!(action, EmulatorAction::Text(_)));
    }
}

#[test]
fn tool_emulation_dollar_split_across_chunks() {
    let actions = parse_chunks(&["Let me check\n", "$ ls -la\n"], false);
    let shells: Vec<_> = actions
        .iter()
        .filter(|a| matches!(a, EmulatorAction::ShellCommand(_)))
        .collect();
    assert_eq!(shells.len(), 1);
    assert_shell(shells[0], "ls -la");
}

#[test]
fn tool_emulation_execute_fence_split_across_chunks() {
    let actions = parse_chunks(
        &["Here:\n```ex", "ecute_typescript\nlet x = 1;\n", "```\n"],
        true,
    );
    let executes: Vec<_> = actions
        .iter()
        .filter(|a| matches!(a, EmulatorAction::ExecuteCode(_)))
        .collect();
    assert_eq!(executes.len(), 1);
    assert_execute(executes[0], "let x = 1;");
}

#[test]
fn tool_emulation_multiple_commands_on_separate_lines() {
    let actions = parse_chunks(&["Here:\n$ cd /tmp\n", "Done.\n$ ls\n"], false);
    let shells: Vec<_> = actions
        .iter()
        .filter(|a| matches!(a, EmulatorAction::ShellCommand(_)))
        .collect();
    assert_eq!(shells.len(), 2);
    assert_shell(shells[0], "cd /tmp");
    assert_shell(shells[1], "ls");
}

#[test]
fn tool_emulation_regular_code_fence_not_treated_as_execute() {
    let input = "```python\nprint('hi')\n```\n";
    let actions = parse_all(input, true);
    for action in &actions {
        assert!(matches!(action, EmulatorAction::Text(_)));
    }
}

#[test]
fn tool_emulation_execute_fence_nested_in_longer_markdown_fence_remains_text() {
    let input = "````markdown\nquoted output:\n```execute_typescript\nawait Developer.shell({ command: \"id\" });\n```\n````\n";
    let chunks: Vec<String> = input.chars().map(|ch| ch.to_string()).collect();
    let chunk_refs: Vec<&str> = chunks.iter().map(String::as_str).collect();
    let actions = parse_chunks(&chunk_refs, true);

    assert!(actions
        .iter()
        .all(|action| matches!(action, EmulatorAction::Text(_))));
    let text: String = actions
        .iter()
        .filter_map(|action| match action {
            EmulatorAction::Text(text) => Some(text.as_str()),
            _ => None,
        })
        .collect();
    assert_eq!(text, input);
}

#[test]
fn tool_emulation_execute_fence_nested_in_tilde_fence_remains_text() {
    let input = "~~~markdown\n```execute_typescript\nawait Developer.shell({ command: \"id\" });\n```\n~~~\n";
    let actions = parse_all(input, true);

    assert!(actions
        .iter()
        .all(|action| matches!(action, EmulatorAction::Text(_))));
}

#[test]
fn backtick_in_tilde_fence_info_keeps_nested_execute_inert() {
    let input = "~~~markdown `quoted`\n```execute_typescript\nmalicious();\n```\n~~~\n";
    let actions = parse_all(input, true);

    assert!(actions
        .iter()
        .all(|action| matches!(action, EmulatorAction::Text(_))));
}

#[test]
fn tool_emulation_backtick_in_backtick_fence_info_does_not_hide_next_execute() {
    let input = "```execute_typescript```\n```execute_typescript\nlet safe = 1;\n```\n";
    let chunks: Vec<String> = input.chars().map(|ch| ch.to_string()).collect();
    let chunk_refs: Vec<&str> = chunks.iter().map(String::as_str).collect();
    let actions = parse_chunks(&chunk_refs, true);
    let executes: Vec<_> = actions
        .iter()
        .filter(|action| matches!(action, EmulatorAction::ExecuteCode(_)))
        .collect();

    assert_eq!(executes.len(), 1);
    assert_execute(executes[0], "let safe = 1;");
    let text: String = actions
        .iter()
        .filter_map(|action| match action {
            EmulatorAction::Text(text) => Some(text.as_str()),
            _ => None,
        })
        .collect();
    assert!(text.contains("```execute_typescript```"));
}

#[test]
fn tool_emulation_unicode_whitespace_does_not_close_execute_fence() {
    let input = "```execute_typescript\nlet before = 1;\n```\u{a0}\nlet after = 2;\n```\n";
    let chunks: Vec<String> = input.chars().map(|ch| ch.to_string()).collect();
    let chunk_refs: Vec<&str> = chunks.iter().map(String::as_str).collect();
    let actions = parse_chunks(&chunk_refs, true);
    let executes: Vec<_> = actions
        .iter()
        .filter(|action| matches!(action, EmulatorAction::ExecuteCode(_)))
        .collect();

    assert_eq!(executes.len(), 1);
    assert_execute(executes[0], "let before = 1;\n```\u{a0}\nlet after = 2;");
}

#[test]
fn impossible_fence_prefixes_are_streamed_as_text() {
    for (prefix, suffix) in [("`", "s"), ("``", "s"), ("~", "s"), ("~~", "s")] {
        let mut parser = StreamingEmulatorParser::new(true);
        assert!(parser.process_chunk(prefix).is_empty());
        let actions = parser.process_chunk(suffix);

        assert_eq!(actions.len(), 1);
        assert_text(&actions[0], &format!("{prefix}{suffix}"));
    }

    let mut parser = StreamingEmulatorParser::new(true);
    assert!(parser.process_chunk("- `").is_empty());
    let actions = parser.process_chunk("status");
    assert_eq!(actions.len(), 1);
    assert_text(&actions[0], "- `status");

    let mut parser = StreamingEmulatorParser::new(true);
    assert!(parser.process_chunk("```python").is_empty());
}

#[test]
fn tool_emulation_execute_fence_nested_in_list_item_fence_remains_text() {
    for input in [
        "- ````markdown\n  ```execute_typescript\n  await Developer.shell({ command: \"id\" });\n  ```\n  ````\n```execute_typescript\nlet safe = 1;\n```\n",
        "10. ````markdown\n    ```execute_typescript\n    await Developer.shell({ command: \"id\" });\n    ```\n    ````\n```execute_typescript\nlet safe = 1;\n```\n",
    ] {
        let chunks: Vec<String> = input.chars().map(|ch| ch.to_string()).collect();
        let chunk_refs: Vec<&str> = chunks.iter().map(String::as_str).collect();
        let actions = parse_chunks(&chunk_refs, true);
        let executes: Vec<_> = actions
            .iter()
            .filter(|action| matches!(action, EmulatorAction::ExecuteCode(_)))
            .collect();

        assert_eq!(executes.len(), 1);
        assert_execute(executes[0], "let safe = 1;");
        assert!(!actions.iter().any(|action| {
            matches!(action, EmulatorAction::ExecuteCode(code) if code.contains("Developer.shell"))
        }));
    }
}

#[test]
fn tool_emulation_list_item_execute_fence_remains_text() {
    let input =
        "- ```execute_typescript\n  await Developer.shell({ command: \"id\" });\n  ```\n";
    let chunks: Vec<String> = input.chars().map(|ch| ch.to_string()).collect();
    let chunk_refs: Vec<&str> = chunks.iter().map(String::as_str).collect();
    let actions = parse_chunks(&chunk_refs, true);

    assert!(actions
        .iter()
        .all(|action| matches!(action, EmulatorAction::Text(_))));
}

#[test]
fn tool_emulation_execute_fence_in_list_continuation_remains_text() {
    for input in [
        "- quoted output:\n\n  ```execute_typescript\n  malicious();\n  ```\n```execute_typescript\nlet safe = 1;\n```\n",
        "10. quoted output:\n\n    ```execute_typescript\n    malicious();\n    ```\n```execute_typescript\nlet safe = 1;\n```\n",
        "- outer\n  - nested\n\n    nested text\n  ```execute_typescript\n  malicious();\n  ```\n```execute_typescript\nlet safe = 1;\n```\n",
    ] {
        let chunks: Vec<String> = input.chars().map(|ch| ch.to_string()).collect();
        let chunk_refs: Vec<&str> = chunks.iter().map(String::as_str).collect();
        let actions = parse_chunks(&chunk_refs, true);
        let executes: Vec<_> = actions
            .iter()
            .filter(|action| matches!(action, EmulatorAction::ExecuteCode(_)))
            .collect();

        assert_eq!(executes.len(), 1);
        assert_execute(executes[0], "let safe = 1;");
        assert!(!actions.iter().any(
            |action| matches!(action, EmulatorAction::ExecuteCode(code) if code.contains("malicious"))
        ));
    }
}

#[test]
fn multiple_blank_lines_preserve_nonempty_list_context() {
    let input = "- item\n\n\n  ```execute_typescript\n  inert();\n  ```\n\n```execute_typescript\nsafe();\n```\n";
    let chunks: Vec<String> = input.chars().map(|ch| ch.to_string()).collect();
    let chunk_refs: Vec<&str> = chunks.iter().map(String::as_str).collect();
    let actions = parse_chunks(&chunk_refs, true);
    let executes: Vec<_> = actions
        .iter()
        .filter(|action| matches!(action, EmulatorAction::ExecuteCode(_)))
        .collect();

    assert_eq!(executes.len(), 1);
    assert_execute(executes[0], "safe();");
}

#[test]
fn outdented_command_ends_list_before_indented_execute() {
    let input = "- item\n$ echo ok\n  ```execute_typescript\nlet safe = 1;\n  ```\n";
    let chunks: Vec<String> = input.chars().map(|ch| ch.to_string()).collect();
    let chunk_refs: Vec<&str> = chunks.iter().map(String::as_str).collect();
    let actions = parse_chunks(&chunk_refs, true);

    assert!(actions.iter().any(
        |action| matches!(action, EmulatorAction::ShellCommand(command) if command == "echo ok")
    ));
    let executes: Vec<_> = actions
        .iter()
        .filter(|action| matches!(action, EmulatorAction::ExecuteCode(_)))
        .collect();
    assert_eq!(executes.len(), 1);
    assert_execute(executes[0], "let safe = 1;");
}

#[test]
fn list_continuation_requires_at_most_four_marker_spaces() {
    for (input, expected_execute_count) in [
        (
            "-    quoted\n\n     ```execute_typescript\n     inert();\n     ```\n",
            0,
        ),
        (
            "-     not a list item\n   ```execute_typescript\nlet safe = 1;\n   ```\n",
            1,
        ),
    ] {
        let chunks: Vec<String> = input.chars().map(|ch| ch.to_string()).collect();
        let chunk_refs: Vec<&str> = chunks.iter().map(String::as_str).collect();
        let actions = parse_chunks(&chunk_refs, true);
        assert_eq!(
            actions
                .iter()
                .filter(|action| matches!(action, EmulatorAction::ExecuteCode(_)))
                .count(),
            expected_execute_count
        );
    }
}

#[test]
fn tool_emulation_thematic_break_does_not_start_list_context() {
    for separator in ["* * *", "- - -"] {
        let input = format!("{separator}\n  ```execute_typescript\nlet safe = 1;\n  ```\n");
        let chunks: Vec<String> = input.chars().map(|ch| ch.to_string()).collect();
        let chunk_refs: Vec<&str> = chunks.iter().map(String::as_str).collect();
        let actions = parse_chunks(&chunk_refs, true);
        let executes: Vec<_> = actions
            .iter()
            .filter(|action| matches!(action, EmulatorAction::ExecuteCode(_)))
            .collect();

        assert_eq!(executes.len(), 1);
        assert_execute(executes[0], "let safe = 1;");
    }
}

#[test]
fn tool_emulation_empty_list_item_keeps_indented_execute_inert() {
    for (marker, indent) in [
        ("-", "  "),
        ("-   ", "  "),
        ("-\t", "  "),
        ("2)", "   "),
        ("10.   ", "    "),
    ] {
        let input = format!(
            "{marker}\n{indent}```execute_typescript\n{indent}malicious();\n{indent}```\n```execute_typescript\nlet safe = 1;\n```\n"
        );
        let chunks: Vec<String> = input.chars().map(|ch| ch.to_string()).collect();
        let chunk_refs: Vec<&str> = chunks.iter().map(String::as_str).collect();
        let actions = parse_chunks(&chunk_refs, true);
        let executes: Vec<_> = actions
            .iter()
            .filter(|action| matches!(action, EmulatorAction::ExecuteCode(_)))
            .collect();

        assert_eq!(executes.len(), 1);
        assert_execute(executes[0], "let safe = 1;");
        assert!(!actions.iter().any(
            |action| matches!(action, EmulatorAction::ExecuteCode(code) if code.contains("malicious"))
        ));
    }
}

#[test]
fn second_blank_line_ends_empty_list_item() {
    let input = "-\n\n  ```execute_typescript\nlet safe = 1;\n  ```\n";
    let chunks: Vec<String> = input.chars().map(|ch| ch.to_string()).collect();
    let chunk_refs: Vec<&str> = chunks.iter().map(String::as_str).collect();
    let actions = parse_chunks(&chunk_refs, true);
    let executes: Vec<_> = actions
        .iter()
        .filter(|action| matches!(action, EmulatorAction::ExecuteCode(_)))
        .collect();

    assert_eq!(executes.len(), 1);
    assert_execute(executes[0], "let safe = 1;");
}

#[test]
fn tabbed_list_marker_cannot_reframe_nested_execute_fence() {
    let input = "-\t````markdown\n  ````\n  ```execute_typescript\n  await Developer.shell({ command: \"id\" });\n  ```\n";
    let chunks: Vec<String> = input.chars().map(|ch| ch.to_string()).collect();
    let chunk_refs: Vec<&str> = chunks.iter().map(String::as_str).collect();
    let actions = parse_chunks(&chunk_refs, true);

    assert!(actions
        .iter()
        .all(|action| matches!(action, EmulatorAction::Text(_))));
}

#[test]
fn tabbed_list_continuation_keeps_nested_execute_fence_inert() {
    let input =
        "- ````markdown\n\tquoted\n  ```execute_typescript\n  malicious()\n  ```\n  ````\n";
    let chunks: Vec<String> = input.chars().map(|ch| ch.to_string()).collect();
    let chunk_refs: Vec<&str> = chunks.iter().map(String::as_str).collect();
    let actions = parse_chunks(&chunk_refs, true);

    assert!(actions
        .iter()
        .all(|action| matches!(action, EmulatorAction::Text(_))));
}

#[test]
fn list_fence_marker_padding_is_bounded() {
    for line in [
        "- ````markdown",
        "+  ````markdown",
        "*   ````markdown",
        "1.    ````markdown",
        "1) ````markdown",
    ] {
        assert!(parse_fence(line).is_some(), "expected list fence: {line}");
    }
    for line in ["-\t````markdown", "-     ````markdown"] {
        assert!(parse_fence(line).is_none(), "unexpected list fence: {line}");
    }
}

#[test]
fn outdented_execute_after_unclosed_list_fence_is_recognized() {
    let input = "- ````markdown\n  quoted output\n```execute_typescript\nlet safe = 1;\n```\n";
    let chunks: Vec<String> = input.chars().map(|ch| ch.to_string()).collect();
    let chunk_refs: Vec<&str> = chunks.iter().map(String::as_str).collect();
    let actions = parse_chunks(&chunk_refs, true);
    let executes: Vec<_> = actions
        .iter()
        .filter(|action| matches!(action, EmulatorAction::ExecuteCode(_)))
        .collect();

    assert_eq!(executes.len(), 1);
    assert_execute(executes[0], "let safe = 1;");
}

#[test]
fn tool_emulation_longer_top_level_execute_fence_is_recognized() {
    let input = "````execute_typescript\nlet x = 1;\n````\n";
    let actions = parse_all(input, true);
    let executes: Vec<_> = actions
        .iter()
        .filter(|action| matches!(action, EmulatorAction::ExecuteCode(_)))
        .collect();

    assert_eq!(executes.len(), 1);
    assert_execute(executes[0], "let x = 1;");
}

#[test]
fn tool_emulation_closing_fence_with_split_trailing_spaces_is_recognized() {
    let actions = parse_chunks(
        &["```execute_typescript\nlet x = 1;\n```", "  ", "\n"],
        true,
    );
    let executes: Vec<_> = actions
        .iter()
        .filter(|action| matches!(action, EmulatorAction::ExecuteCode(_)))
        .collect();

    assert_eq!(executes.len(), 1);
    assert_execute(executes[0], "let x = 1;");
}

#[test]
fn closing_fence_waits_for_the_complete_streamed_line() {
    let mut parser = StreamingEmulatorParser::new(true);

    let actions = parser.process_chunk("```execute_typescript\nlet x = 1;\n```");
    assert!(!actions
        .iter()
        .any(|action| matches!(action, EmulatorAction::ExecuteCode(_))));

    let actions = parser.process_chunk("`");
    assert!(!actions
        .iter()
        .any(|action| matches!(action, EmulatorAction::ExecuteCode(_))));

    let actions = parser.process_chunk("\n");
    let executes: Vec<_> = actions
        .iter()
        .filter(|action| matches!(action, EmulatorAction::ExecuteCode(_)))
        .collect();
    assert_eq!(executes.len(), 1);
    assert_execute(executes[0], "let x = 1;");
}

#[test]
fn closing_fence_prefix_with_trailing_text_remains_code() {
    let mut parser = StreamingEmulatorParser::new(true);

    let actions = parser.process_chunk("```execute_typescript\nlet x = 1;\n```");
    assert!(!actions
        .iter()
        .any(|action| matches!(action, EmulatorAction::ExecuteCode(_))));

    let actions = parser.process_chunk("not-a-close\n");
    assert!(!actions
        .iter()
        .any(|action| matches!(action, EmulatorAction::ExecuteCode(_))));
}

#[test]
fn closing_fence_at_end_of_stream_is_recognized_on_flush() {
    let mut parser = StreamingEmulatorParser::new(true);
    let actions = parser.process_chunk("```execute_typescript\nlet x = 1;\n```");
    assert!(!actions
        .iter()
        .any(|action| matches!(action, EmulatorAction::ExecuteCode(_))));

    let actions = parser.flush();
    let executes: Vec<_> = actions
        .iter()
        .filter(|action| matches!(action, EmulatorAction::ExecuteCode(_)))
        .collect();
    assert_eq!(executes.len(), 1);
    assert_execute(executes[0], "let x = 1;");
}

#[test]
fn tool_emulation_empty_command_ignored() {
    let actions = parse_all("$\n", false);
    let shells: Vec<_> = actions
        .iter()
        .filter(|a| matches!(a, EmulatorAction::ShellCommand(_)))
        .collect();
    assert_eq!(shells.len(), 0);
}

#[test]
fn tool_emulation_token_by_token_streaming() {
    let input = "$ echo hello\n";
    let chars: Vec<String> = input.chars().map(|c| c.to_string()).collect();
    let chunks: Vec<&str> = chars.iter().map(|s| s.as_str()).collect();
    let actions = parse_chunks(&chunks, false);
    let shells: Vec<_> = actions
        .iter()
        .filter(|a| matches!(a, EmulatorAction::ShellCommand(_)))
        .collect();
    assert_eq!(shells.len(), 1);
    assert_shell(shells[0], "echo hello");
}

#[test]
fn tool_emulation_execute_block_with_multiline_code() {
    let input = "```execute_typescript\nasync function run() {\n  const r = await Developer.shell({ command: \"ls\" });\n  return r;\n}\n```\n";
    let actions = parse_all(input, true);
    let executes: Vec<_> = actions
        .iter()
        .filter(|a| matches!(a, EmulatorAction::ExecuteCode(_)))
        .collect();
    assert_eq!(executes.len(), 1);
    match executes[0] {
        EmulatorAction::ExecuteCode(code) => {
            assert!(code.contains("async function run()"));
            assert!(code.contains("Developer.shell"));
        }
        _ => unreachable!(),
    }
}

#[test]
fn tool_emulation_unclosed_execute_block_flushed() {
    let input = "```execute_typescript\nlet x = 1;";
    let actions = parse_all(input, true);
    let executes: Vec<_> = actions
        .iter()
        .filter(|a| matches!(a, EmulatorAction::ExecuteCode(_)))
        .collect();
    assert_eq!(executes.len(), 1);
    assert_execute(executes[0], "let x = 1;");
}

