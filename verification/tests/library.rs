use goose_local_inference::llamacpp::inference_emulated_tools::{
    build_emulator_tool_description as llamacpp_tool_description, EmulatedTurn, TokenAction,
};
use goose_local_inference::system_prompt::{prompt_context, prompt_or_fallback, FALLBACK_PROMPT};
use goose_local_inference::markdown::{
    could_be_fence_prefix, could_be_list_fence, leading_indent, parse_fence,
};
use goose_local_inference::tool_description::ToolInfo;
use goose_local_inference::tool_emulation::{
    build_emulator_tool_description, message_for_emulator_action, wrap_code, EmulatorAction,
    MessageBody, StreamingEmulatorParser, CODE_EXECUTION_TOOL, SHELL_TOOL,
};

fn feed(chunks: &[&str], code_mode: bool) -> Vec<EmulatorAction> {
    let mut parser = StreamingEmulatorParser::new(code_mode);
    let mut actions = Vec::new();
    for chunk in chunks {
        actions.extend(parser.process_chunk(chunk));
    }
    actions.extend(parser.flush());
    actions
}

fn by_char(input: &str) -> Vec<String> {
    input.chars().map(|c| c.to_string()).collect()
}

fn feed_by_char(input: &str, code_mode: bool) -> Vec<EmulatorAction> {
    let chunks = by_char(input);
    let refs: Vec<&str> = chunks.iter().map(String::as_str).collect();
    feed(&refs, code_mode)
}

fn texts(actions: &[EmulatorAction]) -> String {
    actions
        .iter()
        .filter_map(|a| match a {
            EmulatorAction::Text(t) => Some(t.as_str()),
            _ => None,
        })
        .collect()
}

#[test]
fn plain_mode_never_executes_even_top_level_fences() {
    let input = "```execute_typescript\nrun();\n```\n````execute_typescript\nrun();\n````\n";
    for actions in [feed(&[input], false), feed_by_char(input, false)] {
        assert!(actions.iter().all(|a| !matches!(a, EmulatorAction::ExecuteCode(_))));
        assert_eq!(texts(&actions), input);
    }
}

#[test]
fn commands_are_trimmed_single_lines() {
    let actions = feed(&["$   ls -la   \n$\t\n$ echo hi\u{a0}\n"], false);
    let commands: Vec<&str> = actions
        .iter()
        .filter_map(|a| match a {
            EmulatorAction::ShellCommand(c) => Some(c.as_str()),
            _ => None,
        })
        .collect();
    assert_eq!(commands, vec!["ls -la", "echo hi"]);
}

#[test]
fn text_actions_are_never_empty() {
    let actions = feed(&["a\n", "", "b", "", "c\n\n"], true);
    for action in &actions {
        if let EmulatorAction::Text(t) = action {
            assert!(!t.is_empty());
        }
    }
    assert_eq!(texts(&actions), "a\nbc\n\n");
}

#[test]
fn markdown_fence_content_is_text() {
    let input = "```python\n$ rm -rf /\n```execute_typescript\nboom();\n```\n";
    let actions = feed_by_char(input, true);
    assert!(actions.iter().all(|a| matches!(a, EmulatorAction::Text(_))));
    assert_eq!(texts(&actions), input);
}

#[test]
fn execute_requires_exact_info_string() {
    for input in [
        "```execute_typescript extra\nx();\n```\n",
        "```Execute_typescript\nx();\n```\n",
        "~~~execute_typescript\nx();\n~~~\n",
        "    ```execute_typescript\nx();\n    ```\n",
    ] {
        let actions = feed(&[input], true);
        assert!(
            actions.iter().all(|a| !matches!(a, EmulatorAction::ExecuteCode(_))),
            "{input:?}"
        );
    }
    let actions = feed(&["   ```execute_typescript\nx();\n```\n"], true);
    assert!(matches!(&actions[..], [EmulatorAction::ExecuteCode(c)] if c == "x();"));
}

#[test]
fn complete_lines_are_not_held_back() {
    let mut parser = StreamingEmulatorParser::new(true);
    let actions = parser.process_chunk("first line\nsecond");
    assert!(matches!(&actions[..], [EmulatorAction::Text(t), EmulatorAction::Text(u)]
        if t == "first line\n" && u == "second"));
    let actions = parser.process_chunk(" half\n$ ls\n");
    assert!(matches!(&actions[..], [EmulatorAction::Text(t), EmulatorAction::ShellCommand(c)]
        if t == " half\n" && c == "ls"));
}

#[test]
fn possible_control_lines_are_held_back() {
    let mut parser = StreamingEmulatorParser::new(true);
    assert!(parser.process_chunk("$").is_empty());
    assert!(parser.process_chunk(" l").is_empty());
    let actions = parser.process_chunk("s\n");
    assert!(matches!(&actions[..], [EmulatorAction::ShellCommand(c)] if c == "ls"));
    assert!(parser.process_chunk("- ").is_empty());
    assert!(parser.process_chunk("``").is_empty());
    let actions = parser.process_chunk("12\n");
    assert!(matches!(&actions[..], [EmulatorAction::Text(t)] if t == "- ``12\n"));
}

#[test]
fn flush_settles_and_second_flush_is_silent() {
    let mut parser = StreamingEmulatorParser::new(true);
    assert!(parser.process_chunk("```execute_typescript\n  let x = 1;  \n").is_empty());
    let actions = parser.flush();
    assert!(matches!(&actions[..], [EmulatorAction::ExecuteCode(c)] if c == "let x = 1;"));
    assert!(parser.flush().is_empty());
    let actions = parser.process_chunk("$ pwd\n");
    assert!(matches!(&actions[..], [EmulatorAction::ShellCommand(c)] if c == "pwd"));
}

#[test]
fn fresh_parser_is_silent() {
    for code_mode in [false, true] {
        let mut parser = StreamingEmulatorParser::new(code_mode);
        assert!(parser.process_chunk("").is_empty());
        assert!(parser.flush().is_empty());
        assert!(parser.can_accept("more text"));
    }
}

#[test]
fn blank_execute_block_yields_nothing() {
    let actions = feed(&["```execute_typescript\n \t\n```\nafter\n"], true);
    assert!(matches!(&actions[..], [EmulatorAction::Text(t)] if t == "after\n"));
}

#[test]
fn crlf_execute_block_drops_carriage_return() {
    let actions = feed(&["```execute_typescript\r\nlet a = 1;\r\n```\r\n"], true);
    assert!(matches!(&actions[..], [EmulatorAction::ExecuteCode(c)] if c == "let a = 1;"));
}

#[test]
fn unterminated_command_text_is_flushed_as_text_when_not_a_command() {
    let mut parser = StreamingEmulatorParser::new(false);
    assert!(parser.process_chunk("$").is_empty());
    let actions = parser.flush();
    assert!(actions.is_empty());
}

#[test]
fn leading_indent_counts_tab_stops() {
    assert_eq!(leading_indent(&[' ', '\t', 'x']), (2, 4));
    assert_eq!(leading_indent(&['\t', ' ', ' ', '\t']), (4, 8));
    assert_eq!(leading_indent(&['x', ' ']), (0, 0));
}

#[test]
fn fence_parsing_records_list_container() {
    let fence = parse_fence("- ````markdown").unwrap();
    assert_eq!(fence.marker, '`');
    assert_eq!(fence.len, 4);
    assert_eq!(fence.container_indent, Some(2));
    assert_eq!(fence.info.iter().collect::<String>(), "markdown");
    let fence = parse_fence("~~~ info `x` \r").unwrap();
    assert_eq!(fence.container_indent, None);
    assert_eq!(fence.info.iter().collect::<String>(), "info `x`");
    assert!(parse_fence("``` a`b").is_none());
    assert!(parse_fence("``").is_none());
    assert!(parse_fence("    ```").is_none());
}

#[test]
fn code_is_wrapped_unless_it_defines_run() {
    assert_eq!(
        wrap_code(&"let x = 1;".to_string()),
        "async function run() {\nlet x = 1;\n}"
    );
    let full = "async function run() {\n  return 1;\n}".to_string();
    assert_eq!(wrap_code(&full), full);
}

#[test]
fn actions_become_messages() {
    let (message, is_tool) =
        message_for_emulator_action(&EmulatorAction::Text("hi".to_string()), "msg-1");
    assert!(!is_tool);
    assert_eq!(message.id, "msg-1");
    assert!(matches!(message.body, MessageBody::Text(t) if t == "hi"));

    let (message, is_tool) =
        message_for_emulator_action(&EmulatorAction::ShellCommand("ls".to_string()), "msg-2");
    assert!(is_tool);
    assert_eq!(message.id, "msg-2");
    match message.body {
        MessageBody::ToolRequest(call) => {
            assert_eq!(call.tool_name, SHELL_TOOL);
            assert_eq!(call.argument_name, "command");
            assert_eq!(call.argument_value, "ls");
        }
        _ => panic!("expected a tool request"),
    }

    let (message, is_tool) =
        message_for_emulator_action(&EmulatorAction::ExecuteCode("f();".to_string()), "");
    assert!(is_tool);
    assert_eq!(message.id, "");
    match message.body {
        MessageBody::ToolRequest(call) => {
            assert_eq!(call.tool_name, CODE_EXECUTION_TOOL);
            assert_eq!(call.argument_name, "code");
            assert_eq!(call.argument_value, "async function run() {\nf();\n}");
        }
        _ => panic!("expected a tool request"),
    }
}

fn tools() -> Vec<ToolInfo> {
    vec![
        ToolInfo {
            name: "developer__shell_exec_now".to_string(),
            description: Some("Run a command".to_string()),
        },
        ToolInfo { name: "memory__remember".to_string(), description: None },
        ToolInfo {
            name: "code_execution__execute_typescript".to_string(),
            description: Some("hidden".to_string()),
        },
        ToolInfo { name: "plain".to_string(), description: Some("no namespace".to_string()) },
    ]
}

#[test]
fn code_mode_description_lists_camel_case_functions() {
    let description = build_emulator_tool_description(&tools(), true);
    assert!(description.starts_with("\n\n# Running Code\n\n"));
    assert!(description.ends_with(
        "Available functions:\n\n- Developer.shellExecNow(): Run a command\n- Memory.remember(): \n"
    ));
    assert!(!description.contains("hidden"));
    assert!(!description.contains("no namespace"));
}

#[test]
fn plain_description_lists_every_tool() {
    let description = build_emulator_tool_description(&tools(), false);
    assert_eq!(
        description,
        "\n\n# Tools\n\nYou have access to the following tools:\n\n\
         - developer__shell_exec_now: Run a command\n\
         - memory__remember: No description\n\
         - code_execution__execute_typescript: hidden\n\
         - plain: no namespace\n"
    );
}

#[test]
fn uppercase_mapping_applies_to_first_letters() {
    let description = build_emulator_tool_description(
        &[ToolInfo { name: "\u{df}pa__\u{e9}t\u{e9}_\u{fb01}n".to_string(), description: None }],
        true,
    );
    assert!(description.ends_with("- SSpa.\u{e9}t\u{e9}FIn(): \n"));
}

#[test]
fn llamacpp_description_names_execute_block() {
    let description = llamacpp_tool_description(&[], true);
    assert!(description.contains("```execute block"));
    assert!(description.contains("Use ```execute for tool calls"));
    assert_eq!(llamacpp_tool_description(&tools(), false), build_emulator_tool_description(&tools(), false));
}

#[test]
fn turn_stops_after_a_tool_call() {
    let mut turn = EmulatedTurn::new(false, "m");
    let actions = turn.read_piece("Let me look.\n$ ls\n", "Let me look.\n$ ls\n");
    assert!(matches!(&actions[..], [EmulatorAction::Text(t), EmulatorAction::ShellCommand(c)]
        if t == "Let me look.\n" && c == "ls"));
    assert!(turn.record_send(false, true));
    assert!(matches!(turn.after_piece(false, &[]), TokenAction::Continue));
    assert!(turn.record_send(true, true));
    assert!(turn.tool_call_emitted());
    assert!(matches!(turn.after_piece(false, &[]), TokenAction::Stop));
    assert!(!turn.stop_string_emitted());
}

#[test]
fn turn_stops_at_a_stop_string_and_drops_the_tail() {
    let stops = vec!["<|eom_id|>".to_string(), "</s>".to_string()];
    let mut turn = EmulatedTurn::new(false, "m");
    assert!(turn.read_piece("answer", "answer").len() == 1);
    assert!(matches!(turn.after_piece(false, &stops), TokenAction::Continue));
    assert!(turn.read_piece("</s>", "").is_empty());
    assert!(matches!(turn.after_piece(false, &stops), TokenAction::Stop));
    assert!(turn.stop_string_emitted());
    assert!(turn.tail_actions("$ rm\n", false, "x").is_empty());
    assert!(turn.flush_actions().is_empty());
}

#[test]
fn stop_strings_count_only_at_the_end() {
    let stops = vec!["</s>".to_string()];
    let mut turn = EmulatedTurn::new(false, "m");
    turn.read_piece("</s> answer", "");
    assert!(matches!(turn.after_piece(false, &stops), TokenAction::Continue));
    assert!(matches!(turn.after_piece(true, &stops), TokenAction::Stop));
    assert!(turn.stop_string_emitted());
}

#[test]
fn turn_tail_joins_released_and_held_text() {
    let mut turn = EmulatedTurn::new(false, "m");
    let actions = turn.tail_actions("$ l", false, "s\n");
    assert!(matches!(&actions[..], [EmulatorAction::ShellCommand(c)] if c == "ls"));
    let mut turn = EmulatedTurn::new(false, "m");
    let actions = turn.tail_actions("$ l", true, "s\n");
    assert!(actions.is_empty());
    let actions = turn.flush_actions();
    assert!(matches!(&actions[..], [EmulatorAction::ShellCommand(c)] if c == "l"));
}

#[test]
fn nothing_is_handed_out_after_a_failed_send() {
    let mut turn = EmulatedTurn::new(false, "m");
    assert!(turn.read_piece("$ ls", "$ ls").is_empty());
    assert!(!turn.record_send(true, false));
    assert!(turn.send_failed());
    assert!(!turn.tool_call_emitted());
    assert!(!turn.sends_thinking("some thought"));
    assert!(matches!(turn.after_piece(false, &[]), TokenAction::Stop));
    assert!(!turn.stop_string_emitted());
    assert!(turn.tail_actions("\n", false, "").is_empty());
    assert!(turn.flush_actions().is_empty());
}

#[test]
fn prompt_context_falls_back_to_defaults() {
    let context = prompt_context("linux", Some("/work".to_string()), Some("/bin/zsh".to_string()));
    assert_eq!(context.os, "linux");
    assert_eq!(context.working_directory, "/work");
    assert_eq!(context.shell, "/bin/zsh");
    let context = prompt_context("freebsd", None, None);
    assert_eq!(context.os, "unknown");
    assert_eq!(context.working_directory, "unknown");
    assert_eq!(context.shell, "/bin/sh");
    assert_eq!(prompt_context("macos", None, None).os, "macos");
    assert_eq!(prompt_context("windows", None, None).os, "windows");
}

#[test]
fn prompt_falls_back_when_rendering_fails() {
    assert_eq!(prompt_or_fallback(Some("rendered".to_string())), "rendered");
    assert_eq!(
        prompt_or_fallback(None),
        "You are Goose, an AI assistant. You can execute shell commands by starting lines with $."
    );
    assert_eq!(prompt_or_fallback(None), FALLBACK_PROMPT);
}

#[test]
fn dollar_inside_a_line_never_starts_a_command() {
    let actions = feed(&["price: ", "$5\n", "a $ b\n$ echo hi\n"], false);
    assert!(matches!(&actions[..],
        [EmulatorAction::Text(a), EmulatorAction::Text(b), EmulatorAction::Text(c),
         EmulatorAction::ShellCommand(d)]
        if a == "price: " && b == "$5\n" && c == "a $ b\n" && d == "echo hi"));
}

#[test]
fn plain_text_without_dollar_passes_through_unchanged() {
    let input = ["Hello, ", "world\n  - item\n```js\n", "x = 1;\n```\ntail"];
    let actions = feed(&input, false);
    let mut text = String::new();
    for action in &actions {
        match action {
            EmulatorAction::Text(t) => text.push_str(t),
            _ => panic!("only text expected"),
        }
    }
    assert_eq!(text, input.concat());
}

#[test]
fn dollar_line_runs_in_code_mode_after_a_list_item() {
    let actions = feed(&["- item\n", "$  ls -la  \n"], true);
    assert!(matches!(&actions[..], [EmulatorAction::Text(t), EmulatorAction::ShellCommand(c)]
        if t == "- item\n" && c == "ls -la"));
}

#[test]
fn markdown_and_fenced_dollar_lines_pass_through_in_code_mode() {
    let input = ["Intro\n```js\n$ not a command\n", "```\n- item\n  ~~~\n  x\n  ~~~\n", "end"];
    let actions = feed(&input, true);
    let mut text = String::new();
    for action in &actions {
        match action {
            EmulatorAction::Text(t) => text.push_str(t),
            _ => panic!("only text expected"),
        }
    }
    assert_eq!(text, input.concat());
}

#[test]
fn unindented_execute_fence_after_a_list_item_runs() {
    let actions = feed(&["- item\n", "```execute_typescript\n", "x();\n```\n"], true);
    assert!(matches!(&actions[..], [EmulatorAction::Text(t), EmulatorAction::ExecuteCode(c)]
        if t == "- item\n" && c == "x();"));
}

#[test]
fn empty_chunk_changes_nothing() {
    let mut parser = StreamingEmulatorParser::new(true);
    assert!(parser.process_chunk("- ").is_empty());
    assert!(parser.process_chunk("").is_empty());
    assert!(parser.process_chunk("").is_empty());
    let actions = parser.process_chunk("x\n$ ls");
    assert!(matches!(&actions[..], [EmulatorAction::Text(t)] if t == "- x\n"));
    assert!(parser.process_chunk("").is_empty());
    let actions = parser.process_chunk("\n");
    assert!(matches!(&actions[..], [EmulatorAction::ShellCommand(c)] if c == "ls"));
}

fn labels(actions: &[EmulatorAction]) -> Vec<String> {
    actions
        .iter()
        .map(|a| match a {
            EmulatorAction::Text(t) => format!("text:{t}"),
            EmulatorAction::ShellCommand(c) => format!("shell:{c}"),
            EmulatorAction::ExecuteCode(c) => format!("code:{c}"),
        })
        .collect()
}

#[test]
fn line_sized_chunks_read_as_whole() {
    let lines = [
        "Intro\n",
        "- item\n",
        "  ```js\n",
        "  $ inert\n",
        "  ```\n",
        "```execute_typescript\n",
        "run();\n",
        "```\n",
        "$ ls\n",
    ];
    let mut parser = StreamingEmulatorParser::new(true);
    let mut by_line = Vec::new();
    for line in lines {
        by_line.extend(parser.process_chunk(line));
    }
    let mut parser = StreamingEmulatorParser::new(true);
    let whole = parser.process_chunk(&lines.concat());
    assert_eq!(labels(&by_line), labels(&whole));
    assert_eq!(whole.len(), 7);
}

fn merged_labels(actions: &[EmulatorAction]) -> Vec<String> {
    let mut out: Vec<String> = Vec::new();
    for label in labels(actions) {
        if let (Some(last), Some(text)) = (out.last_mut(), label.strip_prefix("text:")) {
            if last.starts_with("text:") {
                last.push_str(text);
                continue;
            }
        }
        out.push(label);
    }
    out
}

#[test]
fn plain_mode_reads_any_split_as_whole() {
    let input = "Costs $5.\n$ echo hi\n  $ not\n```\n$ ls -la\nbye";
    let whole = feed(&[input], false);
    for (i, _) in input.char_indices().skip(1) {
        let split = feed(&[&input[..i], &input[i..]], false);
        assert_eq!(merged_labels(&split), merged_labels(&whole), "split at {i}");
    }
    let chars: Vec<String> = input.chars().map(|c| c.to_string()).collect();
    let pieces: Vec<&str> = chars.iter().map(|s| s.as_str()).collect();
    assert_eq!(merged_labels(&feed(&pieces, false)), merged_labels(&whole));
}

#[test]
fn list_context_keeps_indented_execute_fence_inert() {
    let input = "  ```execute_typescript\nx\n  ```\n";
    let mut parser = StreamingEmulatorParser::new(true);
    parser.update_list_container("- item", true);
    let mut actions = parser.process_chunk(input);
    actions.extend(parser.flush());
    assert!(actions.iter().all(|a| matches!(a, EmulatorAction::Text(_))));

    let mut parser = StreamingEmulatorParser::new(true);
    let actions = parser.process_chunk(input);
    assert!(matches!(&actions[..], [EmulatorAction::ExecuteCode(c)] if c == "x"));
}

#[test]
fn turn_messages_carry_the_message_id() {
    let turn = EmulatedTurn::new(true, "msg-42");
    let (message, is_tool) = turn.message(&EmulatorAction::ShellCommand("pwd".to_string()));
    assert!(is_tool);
    assert_eq!(message.id, "msg-42");
    let (message, is_tool) = turn.message(&EmulatorAction::Text("hi".to_string()));
    assert!(!is_tool);
    assert_eq!(message.id, "msg-42");
    assert!(turn.sends_thinking("thought"));
    assert!(!turn.sends_thinking(""));
}

#[test]
fn released_text_never_becomes_a_fence_or_a_closing_line() {
    let actions = feed(&["Say ", "```execute_typescript\nrun();\n```\n"], true);
    assert!(actions.iter().all(|a| matches!(a, EmulatorAction::Text(_))));
    let actions = feed(&["```js\n", "x", "```\n$ ls\n"], true);
    assert!(actions.iter().all(|a| matches!(a, EmulatorAction::Text(_))));
}

#[test]
fn unfinished_command_runs_at_flush() {
    let mut parser = StreamingEmulatorParser::new(false);
    assert!(parser.process_chunk("$  ls -l  ").is_empty());
    let actions = parser.flush();
    assert!(matches!(&actions[..], [EmulatorAction::ShellCommand(c)] if c == "ls -l"));
}

#[test]
fn plain_whole_lines_give_one_action_per_line() {
    let mut parser = StreamingEmulatorParser::new(false);
    let actions = parser.process_chunk("Price: $5\n$ ls -a \n$   \nend\n");
    assert_eq!(
        labels(&actions),
        vec!["text:Price: $5\n", "shell:ls -a", "text:end\n"]
    );
    assert!(parser.flush().is_empty());
}

#[test]
fn mid_line_dollars_pass_through_as_text() {
    let input = ["costs $5, ", "a $ b\n", "x $"];
    let actions = feed(&input, false);
    let mut text = String::new();
    for action in &actions {
        match action {
            EmulatorAction::Text(t) => text.push_str(t),
            _ => panic!("only text expected"),
        }
    }
    assert_eq!(text, input.concat());
}

fn chars(s: &str) -> Vec<char> {
    s.chars().collect()
}

fn only_nonempty_texts(actions: &[EmulatorAction]) -> String {
    let mut text = String::new();
    for action in actions {
        match action {
            EmulatorAction::Text(t) => {
                assert!(!t.is_empty());
                text.push_str(t);
            }
            _ => panic!("only text expected"),
        }
    }
    text
}

#[test]
fn code_mode_text_without_tool_syntax_passes_through_any_split() {
    let input = "Intro `code` and ~~~\n1.    a\n      ```\n      inside $x\n      ```\n~~~python\nprint(1)\n~~~\n- b\n```js\nlet y = 2;\n```\nend";
    assert_eq!(only_nonempty_texts(&feed(&[input], true)), input);
    assert_eq!(only_nonempty_texts(&feed_by_char(input, true)), input);
    let chars: Vec<char> = input.chars().collect();
    for cut in 0..=chars.len() {
        let a: String = chars[..cut].iter().collect();
        let b: String = chars[cut..].iter().collect();
        assert_eq!(only_nonempty_texts(&feed(&[&a, &b], true)), input);
    }
}

#[test]
fn code_runs_only_after_a_top_level_execute_fence_line() {
    let cases = [
        "see ```execute_typescript\nrun();\n```\n",
        "- ```execute_typescript\nrun();\n```\n",
        "    ```execute_typescript\nrun();\n```\n",
        "~~~execute_typescript\nrun();\n~~~\n",
        "```execute_typescript x\nrun();\n```\n",
    ];
    for input in cases {
        let actions = feed_by_char(input, true);
        assert!(actions.iter().all(|a| !matches!(a, EmulatorAction::ExecuteCode(_))), "{input}");
    }
    let actions = feed_by_char("   ```execute_typescript\r\nrun();\n```\n", true);
    assert!(matches!(&actions[..], [EmulatorAction::ExecuteCode(c)] if c == "run();"));
}

#[test]
fn fence_prefix_test_is_exact_on_examples() {
    assert!(could_be_fence_prefix(&chars("``")));
    assert!(!could_be_fence_prefix(&chars("``s")));
    assert!(!could_be_fence_prefix(&chars("~~s")));
    assert!(could_be_fence_prefix(&chars("```python")));
    assert!(!could_be_fence_prefix(&chars("```a`")));
    assert!(could_be_fence_prefix(&chars("~~~a`")));
    assert!(parse_fence("```").is_some());
    assert!(parse_fence("~~~a`").is_some());
}

#[test]
fn list_fence_test_is_exact_on_examples() {
    assert!(could_be_list_fence(&chars("- `")));
    assert!(!could_be_list_fence(&chars("- `s")));
    assert!(could_be_list_fence(&chars("10.")));
    assert!(could_be_list_fence(&chars("123456789")));
    assert!(!could_be_list_fence(&chars("1234567890")));
    assert!(!could_be_list_fence(&chars("-\t")));
    assert!(!could_be_list_fence(&chars("-     ")));
    assert!(could_be_list_fence(&chars("*    ~~")));
    for completed in ["- ```", "10. ```", "123456789. ```", "*    ~~~"] {
        let fence = parse_fence(completed).expect(completed);
        assert!(fence.container_indent.is_some(), "{completed}");
    }
}
