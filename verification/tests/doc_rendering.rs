use docparse::doc_model::{
    DocData, DocMetadata, DocSection, FormatInfo, SectionType, TextCleaner,
    detect_heading_level_simple,
};
use docparse::doc_output::{
    apply_markdown_formatting, convert_section_to_markdown, convert_table_to_markdown,
    escape_yaml_string, JsonOutput, MarkdownOutput, OutputFormat, OutputProcessor, TextOutput,
};

#[test]
fn mod_test_output_format_creation() {
    let _text = OutputFormat::text();
    let _text_meta = OutputFormat::text_with_metadata();
    let _text_lines = OutputFormat::text_with_line_numbers();
    let _markdown = OutputFormat::markdown();
    let _json = OutputFormat::json();
    let _json_pretty = OutputFormat::json_pretty();
}

#[test]
fn test_output_processor_creation() {
    let _processor = OutputProcessor::new();
}

#[test]
fn test_markdown_output_creation() {
    let _output = MarkdownOutput::new(true, false);
    let _output_with_metadata = MarkdownOutput::new(true, true);
}

#[test]
fn test_convert_heading_to_markdown() {
    let section = DocSection {
        section_type: SectionType::Heading(2),
        content: "Chapter 1".to_string(),
        level: Some(2),
        formatting: None,
    };

    let markdown = convert_section_to_markdown(&section);
    assert_eq!(markdown, "## Chapter 1");
}

#[test]
fn test_convert_list_to_markdown() {
    let section = DocSection {
        section_type: SectionType::List,
        content: "First item".to_string(),
        level: None,
        formatting: None,
    };

    let markdown = convert_section_to_markdown(&section);
    assert_eq!(markdown, "- First item");
}

#[test]
fn test_apply_formatting() {
    let formatting = FormatInfo {
        bold: true,
        italic: false,
        underline: false,
        font_size: None,
        font_family: None,
    };

    let result = apply_markdown_formatting("Bold text", &formatting);
    assert_eq!(result, "**Bold text**");
}

#[test]
fn test_convert_table_to_markdown() {
    let table_content = "Header1\tHeader2\nRow1Col1\tRow1Col2\nRow2Col1\tRow2Col2";
    let markdown = convert_table_to_markdown(table_content);

    assert!(markdown.contains("| Header1 | Header2 |"));
    assert!(markdown.contains("| --- | --- |"));
    assert!(markdown.contains("| Row1Col1 | Row1Col2 |"));
}

#[test]
fn test_escape_yaml_string() {
    let text = "Title with \"quotes\" and\nnewlines";
    let escaped = escape_yaml_string(text);
    assert_eq!(escaped, "Title with \\\"quotes\\\" and\\nnewlines");
}

#[test]
fn test_full_doc_data_markdown() {
    let doc_data = DocData {
        content: "Test Document\n\nThis is a test paragraph.".to_string(),
        raw_text: "Test Document This is a test paragraph.".to_string(),
        metadata: DocMetadata {
            title: Some("Test Document".to_string()),
            author: Some("Test Author".to_string()),
            subject: Some("Testing".to_string()),
            created: Some("2023-01-01".to_string()),
            modified: Some("2023-01-02".to_string()),
            word_count: 6,
            paragraph_count: 2,
            page_count: Some(1),
            character_count: 42,
        },
        sections: vec![
            DocSection {
                section_type: SectionType::Heading(1),
                content: "Test Document".to_string(),
                level: Some(1),
                formatting: None,
            },
            DocSection {
                section_type: SectionType::Paragraph,
                content: "This is a test paragraph.".to_string(),
                level: None,
                formatting: None,
            },
            DocSection {
                section_type: SectionType::Table,
                content: "Header1\tHeader2\nCell1\tCell2".to_string(),
                level: None,
                formatting: None,
            },
        ],
    };

    let output = MarkdownOutput::new(true, true);
    let result = output.write_doc_data(&doc_data);

    assert!(result.contains("---"));
    assert!(result.contains("title: \"Test Document\""));
    assert!(result.contains("author: \"Test Author\""));
    assert!(result.contains("word_count: 6"));

    assert!(result.contains("# Test Document"));
    assert!(result.contains("This is a test paragraph."));
    assert!(result.contains("| Header1 | Header2 |"));
    assert!(result.contains("| Cell1 | Cell2 |"));
}

#[test]
fn test_markdown_without_metadata() {
    let doc_data = DocData {
        content: "Simple content".to_string(),
        raw_text: "Simple content".to_string(),
        metadata: DocMetadata {
            title: None,
            author: None,
            subject: None,
            created: None,
            modified: None,
            word_count: 2,
            paragraph_count: 1,
            page_count: None,
            character_count: 14,
        },
        sections: vec![DocSection {
            section_type: SectionType::Paragraph,
            content: "Simple content".to_string(),
            level: None,
            formatting: None,
        }],
    };

    let output = MarkdownOutput::new(true, false);
    let result = output.write_doc_data(&doc_data);

    assert!(!result.contains("---"));
    assert!(!result.contains("title:"));

    assert!(result.contains("Simple content"));
}

#[test]
fn test_markdown_list_and_link() {
    let sections = vec![
        DocSection {
            section_type: SectionType::List,
            content: "First item".to_string(),
            level: None,
            formatting: None,
        },
        DocSection {
            section_type: SectionType::Hyperlink,
            content: "Click here|https://example.com".to_string(),
            level: None,
            formatting: None,
        },
    ];

    let output = MarkdownOutput::new(true, false);
    let result = output.write_sections(&sections);

    assert!(result.contains("- First item"));

    assert!(result.contains("[Click here](https://example.com)"));
}

#[test]
fn test_text_output_creation() {
    let _output = TextOutput::new(false, false, false);
    let _output_with_metadata = TextOutput::new(false, true, false);
    let _output_with_formatting = TextOutput::new(true, false, false);
    let _output_with_line_numbers = TextOutput::new(false, false, true);
}

#[test]
fn test_write_simple_sections() {
    let sections = vec![
        DocSection {
            section_type: SectionType::Paragraph,
            content: "Hello World".to_string(),
            level: None,
            formatting: None,
        },
        DocSection {
            section_type: SectionType::Heading(1),
            content: "Title".to_string(),
            level: Some(1),
            formatting: None,
        },
    ];

    let output = TextOutput::new(true, false, false);
    let result = output.write_sections(&sections);
    assert!(result.contains("Hello World"));
    assert!(result.contains("# Title"));
}

#[test]
fn test_write_with_line_numbers() {
    let sections = vec![
        DocSection {
            section_type: SectionType::Paragraph,
            content: "Line 1".to_string(),
            level: None,
            formatting: None,
        },
        DocSection {
            section_type: SectionType::Paragraph,
            content: "Line 2".to_string(),
            level: None,
            formatting: None,
        },
    ];

    let output = TextOutput::new(false, false, true);
    let result = output.write_sections(&sections);
    assert!(result.contains("   1: Line 1"));
    assert!(result.contains("   2: Line 2"));
}

#[test]
fn test_json_output_creation() {
    let _output = JsonOutput::new(false, false);
    let _output_pretty = JsonOutput::new(true, false);
    let _output_with_formatting = JsonOutput::new(false, true);
}

#[test]
fn test_pretty_print() {
    let section = DocSection {
        section_type: SectionType::Paragraph,
        content: "Test".to_string(),
        level: None,
        formatting: None,
    };

    let output = JsonOutput::new(true, false);
    let result = output.write_sections(&vec![section]);

    // Pretty printed JSON should contain indentation
    assert!(result.contains("  "));
}

#[test]
fn test_detect_heading_level_simple() {
    assert_eq!(detect_heading_level_simple("Chapter 1"), Some(2));
    assert_eq!(detect_heading_level_simple("Short Title"), Some(1));
    assert_eq!(
        detect_heading_level_simple(
            "This is a very long paragraph that should not be detected as a heading because it contains too many words and characters"
        ),
        None
    );
}

#[test]
fn test_text_cleaner_integration() {
    let dirty_text = "  Multiple   spaces\t\nand  \r\n line breaks  ";
    let cleaned = TextCleaner::clean_text(dirty_text);
    assert_eq!(cleaned, "Multiple spaces and line breaks");
}

#[test]
fn test_text_cleaner() {
    let dirty_text = "  Hello   \r\n  World  \t  ";
    let cleaned = TextCleaner::clean_text(dirty_text);
    assert_eq!(cleaned, "Hello World");
}

#[test]
fn test_normalize_line_breaks() {
    let text_with_crlf = "Line1\r\nLine2\rLine3\nLine4";
    let normalized = TextCleaner::normalize_line_breaks(text_with_crlf);
    assert_eq!(normalized, "Line1\nLine2\nLine3\nLine4");
}

#[test]
fn test_json_doc_is_wellformed() {
    let doc_data = DocData {
        content: "a \"quoted\" text".to_string(),
        raw_text: "a \"quoted\" text".to_string(),
        metadata: DocMetadata {
            title: Some("T".to_string()),
            author: None,
            subject: None,
            created: None,
            modified: None,
            word_count: 3,
            paragraph_count: 1,
            page_count: None,
            character_count: 15,
        },
        sections: vec![DocSection {
            section_type: SectionType::Heading(2),
            content: "a \"quoted\" text".to_string(),
            level: Some(2),
            formatting: None,
        }],
    };
    let output = JsonOutput::new(false, false);
    let result = output.write_doc_data(&doc_data);
    let parsed: serde_json::Value = serde_json::from_str(&result).unwrap();
    assert_eq!(parsed["content"], "a \"quoted\" text");
    assert_eq!(parsed["metadata"]["word_count"], 3);
    assert_eq!(parsed["sections"][0]["section_type"]["type"], "heading");
    assert_eq!(parsed["sections"][0]["level"], 2);
}
