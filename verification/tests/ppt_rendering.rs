use docparse::ppt_model::{List, ListType, PptData, PptMetadata, PptParser, Slide, Table, Timestamp};
use docparse::ppt_output::{Format, HtmlOutput, MarkdownOutput, TextOutput};

#[test]
fn test_looks_like_title() {
    let parser = PptParser::new();
    assert!(parser.looks_like_title("Project Overview"));
    assert!(parser.looks_like_title("Introduction to Rust"));
    assert!(!parser.looks_like_title(
        "This is a very long sentence that looks more like content than a title."
    ));
    assert!(!parser.looks_like_title("What is this?"));
}

#[test]
fn test_looks_like_table_row() {
    let parser = PptParser::new();
    assert!(parser.looks_like_table_row("Name\tAge\tCity"));
    assert!(parser.looks_like_table_row("John | 30 | New York"));
    assert!(parser.looks_like_table_row("Item  Price  Quantity"));
    assert!(!parser.looks_like_table_row("Simple text"));
}

#[test]
fn test_looks_like_list_item() {
    let parser = PptParser::new();
    assert!(parser.looks_like_list_item("• First item"));
    assert!(parser.looks_like_list_item("- Second item"));
    assert!(parser.looks_like_list_item("* Third item"));
    assert!(parser.looks_like_list_item("1. Numbered item"));
    assert!(!parser.looks_like_list_item("Regular text"));
}

#[test]
fn test_format_equality() {
    assert_eq!(Format::Text, Format::Text);
    assert_eq!(Format::Json, Format::Json);
    assert_eq!(Format::Markdown, Format::Markdown);
    assert_eq!(Format::Html, Format::Html);
    assert_ne!(Format::Text, Format::Json);
}

#[test]
fn test_text_slide_output() {
    let slide = Slide {
        number: 1,
        title: Some("Test Slide".to_string()),
        content: vec!["First point".to_string(), "Second point".to_string()],
        notes: Some("Important notes".to_string()),
        tables: vec![],
        lists: vec![],
    };

    let output = TextOutput::new();
    let result = output.write_slide(&slide);

    assert!(result.contains("SLIDE 1"));
    assert!(result.contains("Title: Test Slide"));
    assert!(result.contains("First point"));
    assert!(result.contains("Second point"));
    assert!(result.contains("Notes:"));
    assert!(result.contains("Important notes"));
}

#[test]
fn test_text_slide_with_list() {
    let list = List {
        slide_number: 1,
        list_type: ListType::Unordered,
        items: vec!["Item 1".to_string(), "Item 2".to_string()],
    };

    let slide = Slide {
        number: 1,
        title: None,
        content: vec![],
        notes: None,
        tables: vec![],
        lists: vec![list],
    };

    let output = TextOutput::new();
    let result = output.write_slide(&slide);

    assert!(result.contains("Lists:"));
    assert!(result.contains("• Item 1"));
    assert!(result.contains("• Item 2"));
}

#[test]
fn test_text_slide_with_table() {
    let table = Table {
        slide_number: 1,
        rows: vec![
            vec!["Name".to_string(), "Age".to_string()],
            vec!["John".to_string(), "30".to_string()],
            vec!["Jane".to_string(), "25".to_string()],
        ],
        headers: Some(vec!["Name".to_string(), "Age".to_string()]),
    };

    let slide = Slide {
        number: 1,
        title: None,
        content: vec![],
        notes: None,
        tables: vec![table],
        lists: vec![],
    };

    let output = TextOutput::new();
    let result = output.write_slide(&slide);

    assert!(result.contains("Tables:"));
    assert!(result.contains("Name | Age"));
    assert!(result.contains("John | 30"));
    assert!(result.contains("Jane | 25"));
}

#[test]
fn test_text_ppt_data_output() {
    let metadata = PptMetadata {
        title: Some("Test Presentation".to_string()),
        author: Some("Test Author".to_string()),
        subject: None,
        creator: None,
        creation_date: Some(Timestamp::new(2023, 6, 15, 12, 0, 0)),
        modification_date: None,
        slide_count: 1,
        file_size: 1024,
        application: None,
    };

    let slide = Slide {
        number: 1,
        title: Some("Slide 1".to_string()),
        content: vec!["Content".to_string()],
        notes: None,
        tables: vec![],
        lists: vec![],
    };

    let ppt_data = PptData {
        slides: vec![slide],
        metadata,
        slide_count: 1,
    };

    let output = TextOutput::new();
    let result = output.write_ppt_data(&ppt_data);

    assert!(result.contains("Presentation: Test Presentation"));
    assert!(result.contains("Author: Test Author"));
    assert!(result.contains("Slides: 1"));
    assert!(result.contains("SLIDE 1"));
}

#[test]
fn test_markdown_slide_output() {
    let slide = Slide {
        number: 1,
        title: Some("Test Slide".to_string()),
        content: vec!["First point".to_string(), "Second point".to_string()],
        notes: Some("Important notes".to_string()),
        tables: vec![],
        lists: vec![],
    };

    let output = MarkdownOutput::new(false, true);
    let result = output.write_slide(&slide);

    assert!(result.contains("## Slide 1: Test Slide"));
    assert!(result.contains("First point"));
    assert!(result.contains("Second point"));
    assert!(result.contains("> **Speaker Notes:** Important notes"));
}

#[test]
fn test_markdown_slide_with_list() {
    let list = List {
        slide_number: 1,
        list_type: ListType::Unordered,
        items: vec!["Item 1".to_string(), "Item 2".to_string()],
    };

    let slide = Slide {
        number: 1,
        title: Some("List Slide".to_string()),
        content: vec![],
        notes: None,
        tables: vec![],
        lists: vec![list],
    };

    let output = MarkdownOutput::new(false, true);
    let result = output.write_slide(&slide);

    assert!(result.contains("- Item 1"));
    assert!(result.contains("- Item 2"));
}

#[test]
fn test_markdown_slide_with_ordered_list() {
    let list = List {
        slide_number: 1,
        list_type: ListType::Ordered,
        items: vec!["First".to_string(), "Second".to_string()],
    };

    let slide = Slide {
        number: 1,
        title: None,
        content: vec![],
        notes: None,
        tables: vec![],
        lists: vec![list],
    };

    let output = MarkdownOutput::new(false, false);
    let result = output.write_slide(&slide);

    assert!(result.contains("1. First"));
    assert!(result.contains("2. Second"));
}

#[test]
fn test_markdown_slide_with_table() {
    let table = Table {
        slide_number: 1,
        rows: vec![
            vec!["Name".to_string(), "Age".to_string()],
            vec!["John".to_string(), "30".to_string()],
            vec!["Jane".to_string(), "25".to_string()],
        ],
        headers: Some(vec!["Name".to_string(), "Age".to_string()]),
    };

    let slide = Slide {
        number: 1,
        title: None,
        content: vec![],
        notes: None,
        tables: vec![table],
        lists: vec![],
    };

    let output = MarkdownOutput::new(false, false);
    let result = output.write_slide(&slide);

    assert!(result.contains("| Name | Age |"));
    assert!(result.contains("|---|---|"));
    assert!(result.contains("| John | 30 |"));
    assert!(result.contains("| Jane | 25 |"));
}

#[test]
fn test_html_escape() {
    let output = HtmlOutput::new(false, false);
    assert_eq!(output.escape_html("Test & <script>"), "Test &amp; &lt;script&gt;");
    assert_eq!(output.escape_html("Quote \"test\""), "Quote &quot;test&quot;");
}

#[test]
fn test_html_slide_output() {
    let slide = Slide {
        number: 1,
        title: Some("Test Slide".to_string()),
        content: vec!["First point".to_string(), "Second point".to_string()],
        notes: Some("Important notes".to_string()),
        tables: vec![],
        lists: vec![],
    };

    let output = HtmlOutput::new(false, false);
    let result = output.write_slide(&slide);

    assert!(result.contains("<!DOCTYPE html>"));
    assert!(result.contains("<title>Slide 1: Test Slide</title>"));
    assert!(result.contains("<h2 class=\"slide-header\">Test Slide</h2>"));
    assert!(result.contains("<p>First point</p>"));
    assert!(result.contains("<p>Second point</p>"));
    assert!(result.contains("Speaker Notes"));
    assert!(result.contains("<p>Important notes</p>"));
}

#[test]
fn test_html_slide_with_list() {
    let list = List {
        slide_number: 1,
        list_type: ListType::Unordered,
        items: vec!["Item 1".to_string(), "Item 2".to_string()],
    };

    let slide = Slide {
        number: 1,
        title: None,
        content: vec![],
        notes: None,
        tables: vec![],
        lists: vec![list],
    };

    let output = HtmlOutput::new(false, false);
    let result = output.write_slide(&slide);

    assert!(result.contains("<ul>"));
    assert!(result.contains("<li>Item 1</li>"));
    assert!(result.contains("<li>Item 2</li>"));
    assert!(result.contains("</ul>"));
}

#[test]
fn test_html_slide_with_ordered_list() {
    let list = List {
        slide_number: 1,
        list_type: ListType::Ordered,
        items: vec!["First".to_string(), "Second".to_string()],
    };

    let slide = Slide {
        number: 1,
        title: None,
        content: vec![],
        notes: None,
        tables: vec![],
        lists: vec![list],
    };

    let output = HtmlOutput::new(false, false);
    let result = output.write_slide(&slide);

    assert!(result.contains("<ol>"));
    assert!(result.contains("<li>First</li>"));
    assert!(result.contains("<li>Second</li>"));
    assert!(result.contains("</ol>"));
}

#[test]
fn test_html_slide_with_table() {
    let table = Table {
        slide_number: 1,
        rows: vec![
            vec!["Name".to_string(), "Age".to_string()],
            vec!["John".to_string(), "30".to_string()],
            vec!["Jane".to_string(), "25".to_string()],
        ],
        headers: Some(vec!["Name".to_string(), "Age".to_string()]),
    };

    let slide = Slide {
        number: 1,
        title: None,
        content: vec![],
        notes: None,
        tables: vec![table],
        lists: vec![],
    };

    let output = HtmlOutput::new(false, false);
    let result = output.write_slide(&slide);

    assert!(result.contains("<table>"));
    assert!(result.contains("<thead>"));
    assert!(result.contains("<th>Name</th>"));
    assert!(result.contains("<th>Age</th>"));
    assert!(result.contains("<tbody>"));
    assert!(result.contains("<td>John</td>"));
    assert!(result.contains("<td>30</td>"));
}

#[test]
fn test_timestamp_formats() {
    let ts = Timestamp::new(2023, 1, 5, 9, 3, 7);
    assert_eq!(ts.format_date(), "2023-01-05");
    assert_eq!(ts.format_full(), "2023-01-05 09:03:07 UTC");
}

#[test]
fn test_ppt_json_slide_is_wellformed() {
    let output = docparse::ppt_output::JsonOutput::new(false, false);
    let slide = Slide {
        number: 3,
        title: Some("T \"x\"".to_string()),
        content: vec!["a".to_string(), "b".to_string()],
        notes: None,
        tables: vec![Table {
            slide_number: 3,
            rows: vec![vec!["r".to_string()]],
            headers: None,
        }],
        lists: vec![List {
            slide_number: 3,
            list_type: ListType::Ordered,
            items: vec!["i".to_string()],
        }],
    };
    let result = output.write_slide(&slide);
    let parsed: serde_json::Value = serde_json::from_str(&result).unwrap();
    assert_eq!(parsed["number"], 3);
    assert_eq!(parsed["title"], "T \"x\"");
    assert_eq!(parsed["content"][1], "b");
    assert_eq!(parsed["tables"][0]["rows"][0][0], "r");
    assert_eq!(parsed["lists"][0]["list_type"], "Ordered");
}
