use agent_core::parser::{render_patch_block, ResponseParser};
use agent_core::session::{count_tokens, extract_tools, filter_thinking_tokens};

#[test]
fn two_patch_blocks_in_source_order() {
    let text = "CHANGE: src/a.rs\n\
                <<<<<<< CURRENT\n\
                old a\n\
                =======\n\
                new a\n\
                >>>>>>> NEW\n\
                some prose in between\n\
                CHANGE: src/b.rs\n\
                <<<<<<< CURRENT\n\
                old b\n\
                =======\n\
                new b\n\
                >>>>>>> NEW\n";
    let tools = extract_tools(text);
    assert_eq!(tools.len(), 2);
    assert_eq!(tools[0].0, "write_file_delta");
    assert_eq!(tools[0].1, "src/a.rs:::old a\nnew a");
    assert_eq!(tools[1].0, "write_file_delta");
    assert_eq!(tools[1].1, "src/b.rs:::old b\nnew b");
}

#[test]
fn patch_block_wins_over_simple_calls() {
    let text = "read_file(\"x.txt\")\n\
                CHANGE: src/a.rs\n\
                <<<<<<< CURRENT\n\
                old\n\
                =======\n\
                new\n\
                >>>>>>> NEW\n\
                execute_command(\"ls\")\n";
    let tools = extract_tools(text);
    assert_eq!(tools.len(), 1);
    assert_eq!(tools[0].0, "write_file_delta");
}

#[test]
fn missing_terminator_emits_nothing() {
    let text = "CHANGE: src/a.rs\n\
                <<<<<<< CURRENT\n\
                old\n\
                =======\n\
                new\n";
    let tools = extract_tools(text);
    assert_eq!(tools.len(), 0);
}

#[test]
fn missing_current_marker_emits_nothing() {
    let text = "CHANGE: src/a.rs\nnothing else\n";
    assert_eq!(extract_tools(text).len(), 0);
}

#[test]
fn round_trip_of_parsed_block() {
    let text = "CHANGE: src/lib.rs\n\
                <<<<<<< CURRENT\n\
                pub fn old() {}\n\
                =======\n\
                pub fn new() {}\n\
                >>>>>>> NEW\n";
    let first = extract_tools(text);
    assert_eq!(first.len(), 1);
    let rendered = render_patch_block("src/lib.rs", "pub fn old() {}", "pub fn new() {}");
    let second = extract_tools(&rendered);
    assert_eq!(first, second);
}

#[test]
fn duplicate_read_file_lines_collapse() {
    let text = "read_file(\"a.txt\")\nread_file(\"a.txt\")\n";
    let tools = extract_tools(text);
    assert_eq!(tools.len(), 1);
    assert_eq!(tools[0], ("read_file".to_string(), "a.txt".to_string()));
}

#[test]
fn read_file_call_and_label_syntax() {
    let parser = ResponseParser::new();
    let t1 = parser.extract_tools("read_file(\"src/main.rs\")");
    assert_eq!(t1, vec![("read_file".to_string(), "src/main.rs".to_string())]);
    let t2 = parser.extract_tools("read_file('src/main.rs')");
    assert_eq!(t2, vec![("read_file".to_string(), "src/main.rs".to_string())]);
    let t3 = parser.extract_tools("read_file: \"src/main.rs\"");
    assert_eq!(t3, vec![("read_file".to_string(), "src/main.rs".to_string())]);
    let t4 = parser.extract_tools("read_file: 'src/main.rs'");
    assert_eq!(t4, vec![("read_file".to_string(), "src/main.rs".to_string())]);
}

#[test]
fn empty_read_file_parameter_is_dropped() {
    assert_eq!(extract_tools("read_file(\"\")").len(), 0);
    assert_eq!(extract_tools("read_file()").len(), 0);
}

#[test]
fn execute_command_syntaxes() {
    let t1 = extract_tools("execute_command(\"cargo build\")");
    assert_eq!(t1, vec![("execute_command".to_string(), "cargo build".to_string())]);
    let t2 = extract_tools("execute_command: \"ls -la\"");
    assert_eq!(t2, vec![("execute_command".to_string(), "ls -la".to_string())]);
    let t3 = extract_tools("code{\"command\":\"cargo test\"}");
    assert_eq!(t3, vec![("execute_command".to_string(), "cargo test".to_string())]);
}

#[test]
fn one_command_per_line_first_match_wins() {
    let tools = extract_tools("execute_command(\"ls\") execute_command(\"pwd\")");
    assert_eq!(tools, vec![("execute_command".to_string(), "ls".to_string())]);
}

#[test]
fn read_file_beats_execute_command_on_one_line() {
    let tools = extract_tools("read_file(\"a\") execute_command(\"b\")");
    assert_eq!(tools, vec![("read_file".to_string(), "a".to_string())]);
}

#[test]
fn fenced_blocks_are_stripped() {
    let text = "```rust\nread_file(\"src/lib.rs\")\n```\n";
    let tools = extract_tools(text);
    assert_eq!(tools, vec![("read_file".to_string(), "src/lib.rs".to_string())]);
}

#[test]
fn delimiter_lines_yield_no_simple_calls() {
    let text = "CHANGE: read_file(\"x\")\n======= execute_command(\"y\")\n";
    assert_eq!(extract_tools(text).len(), 0);
}

#[test]
fn prose_without_tools_yields_nothing() {
    assert_eq!(extract_tools("I will now look at the file.").len(), 0);
    assert_eq!(extract_tools("").len(), 0);
}

#[test]
fn block_content_may_be_empty() {
    let text = "CHANGE: src/new.rs\n\
                <<<<<<< CURRENT\n\
                =======\n\
                fn fresh() {}\n\
                >>>>>>> NEW\n";
    let tools = extract_tools(text);
    assert_eq!(tools.len(), 1);
    assert_eq!(tools[0].1, "src/new.rs:::\nfn fresh() {}");
}

#[test]
fn filter_thinking_tokens_strips_markers() {
    let raw = "<|start|>assistant<|channel|>final<|message|>  hello  <|end|>";
    assert_eq!(filter_thinking_tokens(raw), "final  hello");
    assert_eq!(filter_thinking_tokens("  plain  "), "plain");
}

#[test]
fn count_tokens_takes_the_larger_estimate() {
    // 11 bytes / 4 = 2, and 2 words: the estimates agree
    assert_eq!(count_tokens("hello world"), 2);
    // 23 bytes / 4 = 5, but 12 one-letter words
    assert_eq!(count_tokens("a b c d e f g h i j k l"), 12);
    // 28 bytes / 4 = 7, one word
    assert_eq!(count_tokens("supercalifragilisticexpialid"), 7);
    assert_eq!(count_tokens(""), 0);
    assert_eq!(count_tokens("   "), 0);
}

#[test]
fn earlier_blocks_survive_a_trailing_malformed_block() {
    let text = "CHANGE: src/a.rs\n\
                <<<<<<< CURRENT\n\
                old a\n\
                =======\n\
                new a\n\
                >>>>>>> NEW\n\
                CHANGE: src/b.rs\n\
                <<<<<<< CURRENT\n\
                old b\n\
                =======\n\
                new b\n";
    let tools = extract_tools(text);
    assert_eq!(tools.len(), 1);
    assert_eq!(tools[0].1, "src/a.rs:::old a\nnew a");
}

#[test]
fn prose_between_change_line_and_markers_is_ignored() {
    let text = "CHANGE: src/a.rs\n\
                here is the edit I promised\n\
                <<<<<<< CURRENT\n\
                old\n\
                =======\n\
                new\n\
                >>>>>>> NEW\n";
    let tools = extract_tools(text);
    assert_eq!(tools.len(), 1);
    assert_eq!(tools[0].1, "src/a.rs:::old\nnew");
}

#[test]
fn carriage_returns_before_newlines_are_dropped() {
    let text = "CHANGE: src/a.rs\r\n\
                <<<<<<< CURRENT\r\n\
                old\r\n\
                =======\r\n\
                new\r\n\
                >>>>>>> NEW\r\n";
    let tools = extract_tools(text);
    assert_eq!(tools.len(), 1);
    assert_eq!(tools[0].1, "src/a.rs:::old\nnew");
}

#[test]
fn tool_calls_are_found_inside_prose_lines() {
    let tools = extract_tools("Next I will read_file(\"src/a.rs\") to check.");
    assert_eq!(tools, vec![("read_file".to_string(), "src/a.rs".to_string())]);
}

#[test]
fn round_trip_of_multi_line_content() {
    let old = "fn a() {\n    1\n}";
    let new = "fn a() {\n    2\n}\n\nfn b() {}";
    let rendered = render_patch_block("src/m.rs", old, new);
    let tools = extract_tools(&rendered);
    assert_eq!(tools.len(), 1);
    assert_eq!(tools[0].0, "write_file_delta");
    assert_eq!(tools[0].1, format!("src/m.rs:::{}\n{}", old, new));
}

#[test]
fn empty_label_syntax_parameter_is_dropped() {
    assert_eq!(extract_tools("read_file: \"\"").len(), 0);
    assert_eq!(extract_tools("read_file: ''").len(), 0);
    assert_eq!(extract_tools("execute_command: \"\"").len(), 0);
}

#[test]
fn block_content_keeps_its_indentation() {
    let text = "CHANGE: src/a.rs\n<<<<<<< CURRENT\n  old\n=======\n  new\n>>>>>>> NEW\n";
    let tools = extract_tools(text);
    assert_eq!(tools.len(), 1);
    assert_eq!(tools[0].1, "src/a.rs:::  old\n  new");
}

#[test]
fn path_may_contain_the_keyword_as_a_substring() {
    let text = "CHANGE: a/CHANGE:b.rs\n<<<<<<< CURRENT\nx\n=======\ny\n>>>>>>> NEW\n";
    let tools = extract_tools(text);
    assert_eq!(tools.len(), 1);
    assert_eq!(tools[0].1, "a/CHANGE:b.rs:::x\ny");
}
