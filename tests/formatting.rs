use taskbot::escape::{escape_markdown_v2, escape_non_formatting_chars};
use taskbot::markup::process_markdown_formatting;
use taskbot::reflow::format_response_content;
use taskbot::render::{
    format_created_message, format_deleted_message, format_help_message, format_task_list,
    format_xai_response, TaskEntry,
};

#[test]
fn test_escape_markdown_v2() {
    let input = "Hello *world* with [link] and (parens)";
    let escaped = escape_markdown_v2(input);
    assert_eq!(escaped, r"Hello \*world\* with \[link\] and \(parens\)");
}

#[test]
fn test_format_response_content() {
    let list_input = "Items:\n- First item\n- *Second* item";
    let formatted = format_response_content(list_input);
    println!("Formatted output: {}", formatted);

    assert!(formatted.contains("\u{201a}\u{c4}\u{a2} First item"));
    assert!(formatted.contains("\u{201a}\u{c4}\u{a2} *Second* item"));

    let text_with_formatting = "Here is *bold* and `code` text";
    let formatted_text = format_response_content(text_with_formatting);
    assert!(formatted_text.contains("Here is *bold* and `code` text"));

    let multi_paragraph = "First paragraph\n\nList:\n- Item 1\n- *Item* 2\n\nLast paragraph";
    let formatted_multi = format_response_content(multi_paragraph);
    assert!(formatted_multi.contains("First paragraph"));
    assert!(formatted_multi.contains("\u{201a}\u{c4}\u{a2} Item 1"));
    assert!(formatted_multi.contains("\u{201a}\u{c4}\u{a2} *Item* 2"));
    assert!(formatted_multi.contains("Last paragraph"));

    let mixed_content = "Here's a *bold* statement with some (parentheses)";
    let formatted_mixed = format_response_content(mixed_content);
    assert!(formatted_mixed.contains("Here\\'s a *bold* statement with some \\(parentheses\\)"));
}

#[test]
fn test_format_xai_response() {
    let question = "What's the price?";
    let response = "Bitcoin is at $50,000";

    let with_task = format_xai_response(Some("price_check"), question, response);
    assert!(with_task.contains("price\\_check"));
    assert!(with_task.contains("What\\'s the price\\?"));
    assert!(with_task.contains("Bitcoin is at \\$50\\,000"));

    let without_task = format_xai_response(None, question, response);
    assert!(!without_task.contains("Task:"));
    assert!(without_task.contains("Question:"));
    assert!(without_task.contains("Answer:"));
}

#[test]
fn test_help_message() {
    let help = format_help_message();
    assert!(help.contains("/help"));
    assert!(help.contains("/create"));
    assert!(help.contains("/list"));
    assert!(help.contains("/delete"));
    assert!(help.contains("/ask"));
}

#[test]
fn test_format_task_list() {
    let timestamp = "2024-02-20T12:00:00Z";
    let tasks = vec![TaskEntry {
        name: "test_task".to_string(),
        question: "What is the weather?".to_string(),
        interval: 30,
        last_run: timestamp.to_string(),
    }];

    let formatted = format_task_list(&tasks);

    assert!(formatted.contains("test\\_task"));
    assert!(formatted.contains("30 minutes"));
    assert!(formatted.contains("What is the weather\\?"));
    assert!(formatted.contains(&escape_markdown_v2(timestamp)));
}

#[test]
fn test_empty_task_list() {
    let tasks: Vec<TaskEntry> = Vec::new();
    let formatted = format_task_list(&tasks);
    assert!(formatted.contains("No tasks found"));
}

#[test]
fn test_markdown_escaping() {
    let special_chars = "._*[]()~`>#+-=|{}.!";
    let escaped = escape_markdown_v2(special_chars);
    assert_eq!(escaped, r"\.\_\*\[\]\(\)\~\`\>\#\+\-\=\|\{\}\.\!");

    assert_eq!(escape_markdown_v2("."), r"\.");
    assert_eq!(escape_markdown_v2("*"), r"\*");
    assert_eq!(escape_markdown_v2("_"), r"\_");
    assert_eq!(escape_markdown_v2("["), r"\[");
    assert_eq!(escape_markdown_v2("]"), r"\]");
    assert_eq!(escape_markdown_v2("("), r"\(");
    assert_eq!(escape_markdown_v2(")"), r"\)");
    assert_eq!(escape_markdown_v2("~"), r"\~");
    assert_eq!(escape_markdown_v2("`"), r"\`");
    assert_eq!(escape_markdown_v2(">"), r"\>");
    assert_eq!(escape_markdown_v2("#"), r"\#");
    assert_eq!(escape_markdown_v2("+"), r"\+");
    assert_eq!(escape_markdown_v2("-"), r"\-");
    assert_eq!(escape_markdown_v2("="), r"\=");
    assert_eq!(escape_markdown_v2("|"), r"\|");
    assert_eq!(escape_markdown_v2("{"), r"\{");
    assert_eq!(escape_markdown_v2("}"), r"\}");
    assert_eq!(escape_markdown_v2("!"), r"\!");
}

#[test]
fn test_xai_response_formatting() {
    let response = format_xai_response(
        Some("crypto_check"),
        "What's the BTC price?",
        "Bitcoin is at $50,000",
    );

    assert!(response.contains("crypto\\_check"));
    assert!(response.contains("What\\'s the BTC price\\?"));
    assert!(response.contains("Bitcoin is at \\$50\\,000"));

    let without_task = format_xai_response(None, "What's the BTC price?", "Bitcoin is at $50,000");

    assert!(!without_task.contains("Task:"));
    assert!(without_task.contains("Question:"));
    assert!(without_task.contains("Answer:"));
}

#[test]
fn test_special_character_escaping() {
    let text = "What's this? It's a test!";
    let escaped = escape_markdown_v2(text);
    assert_eq!(escaped, r"What\'s this\? It\'s a test\!");
}

#[test]
fn restricted_escaper_keeps_delimiters() {
    assert_eq!(escape_non_formatting_chars("a*b_c`d.e"), r"a*b_c`d\.e");
    assert_eq!(escape_non_formatting_chars(""), "");
    assert_eq!(escape_markdown_v2(r"back\slash"), r"back\\slash");
}

#[test]
fn escaper_without_delimiters_round_trips() {
    let s = "Price: $3,000 (approx.)!";
    let e = escape_markdown_v2(s);
    assert_eq!(e, r"Price\: \$3\,000 \(approx\.\)\!");
    assert_eq!(e.replace('\\', ""), s);
}

#[test]
fn balanced_pair_keeps_two_markers() {
    assert_eq!(process_markdown_formatting("*bold*"), "*bold*");
    assert_eq!(process_markdown_formatting("_it's_"), r"_it\'s_");
    assert_eq!(process_markdown_formatting("`a.b`"), r"`a\.b`");
}

#[test]
fn unmatched_delimiter_inside_other_span_is_escaped() {
    assert_eq!(process_markdown_formatting("*a _b*"), r"*a \_b*");
    assert_eq!(process_markdown_formatting("`x**y`"), r"`x\*\*y`");
}

#[test]
fn lone_delimiter_opens_a_span() {
    assert_eq!(process_markdown_formatting("*lonely"), "*lonely");
    assert_eq!(process_markdown_formatting("**x**"), "**x**");
    assert_eq!(process_markdown_formatting(""), "");
}

#[test]
fn list_lines_become_bullets_in_order() {
    let out = format_response_content("- one\n* two\n  - three.");
    assert_eq!(
        out,
        "\u{201a}\u{c4}\u{a2} one\n\u{201a}\u{c4}\u{a2} two\n\u{201a}\u{c4}\u{a2} three\\."
    );
}

#[test]
fn list_paragraph_keeps_continuation_lines() {
    let out = format_response_content("Intro.\n- item\r\nmore");
    assert_eq!(out, "Intro\\.\n\u{201a}\u{c4}\u{a2} item\nmore");
}

#[test]
fn prices_answer_renders_two_paragraphs() {
    let out = format_response_content("Prices:\n\n- BTC $50,000\n- ETH $3,000");
    assert_eq!(
        out,
        "Prices\\:\n\n\u{201a}\u{c4}\u{a2} BTC \\$50\\,000\n\u{201a}\u{c4}\u{a2} ETH \\$3\\,000"
    );
}

#[test]
fn blank_line_runs_split_left_to_right() {
    assert_eq!(format_response_content("a\n\n\nb"), "a\n\n\nb");
    assert_eq!(format_response_content(""), "");
}

#[test]
fn task_response_template() {
    let out = format_xai_response(Some("t.1"), "q?", "a");
    assert_eq!(
        out,
        "\u{f8ff}\u{fc}\u{a7}\u{f1} *Task Response*\n\n\u{f8ff}\u{fc}\u{ec}\u{e5} *Task:* t\\.1\n\u{201a}\u{f9}\u{ec} *Question:* `q\\?`\n\n\u{f8ff}\u{fc}\u{ec}\u{f9} *Answer:*\n\na"
    );
}

#[test]
fn task_list_writes_negative_interval() {
    let tasks = vec![
        TaskEntry {
            name: "a".to_string(),
            question: "b".to_string(),
            interval: -7,
            last_run: "c".to_string(),
        },
        TaskEntry {
            name: "d".to_string(),
            question: "e".to_string(),
            interval: 1234567,
            last_run: "f".to_string(),
        },
    ];
    let out = format_task_list(&tasks);
    assert!(out.starts_with("*\u{f8ff}\u{fc}\u{ec}\u{e3} Active Tasks:*\n\n"));
    assert!(out.contains("-7 minutes"));
    assert!(out.contains("1234567 minutes"));
    assert!(out.find("*Task:* a").unwrap() < out.find("*Task:* d").unwrap());
}

#[test]
fn created_and_deleted_messages() {
    let c = format_created_message("w_x", "Why?", 60);
    assert!(c.contains("*Name:* w\\_x"));
    assert!(c.contains("`Why\\?`"));
    assert!(c.contains("60 minutes"));
    assert_eq!(
        format_deleted_message("a.b"),
        "\u{201a}\u{fa}\u{d6} Task *a\\.b* deleted successfully"
    );
}

#[test]
fn list_paragraphs_keep_blank_lines() {
    let out = format_response_content("- a\n\n* _b_\n-- c");
    assert_eq!(
        out,
        "\u{201a}\u{c4}\u{a2} a\n\n\u{201a}\u{c4}\u{a2} _b_\n\u{201a}\u{c4}\u{a2} c"
    );
}

#[test]
fn indented_list_markers_become_bullets() {
    let out = format_response_content("  - one\n\t* two\n\n   -three");
    assert_eq!(
        out,
        "\u{201a}\u{c4}\u{a2} one\n\u{201a}\u{c4}\u{a2} two\n\n\u{201a}\u{c4}\u{a2} three"
    );
}
