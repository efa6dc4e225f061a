use docparse::pdf::{Page, PdfData, PdfMetadata, PdfParser, Table, TextOutput};

#[test]
fn test_text_output() {
    let page = Page { number: 1, text: "Sample text content".to_string(), tables: vec![] };

    let output = TextOutput::new();
    let result = output.write_page(&page);
    assert_eq!(result, "Sample text content");
}

#[test]
fn text_test_table_output() {
    let table = Table {
        page: 1,
        data: vec![
            vec!["Name".to_string(), "Age".to_string()],
            vec!["John".to_string(), "30".to_string()],
            vec!["Jane".to_string(), "25".to_string()],
        ],
        headers: Some(vec!["Name".to_string(), "Age".to_string()]),
    };

    let output = TextOutput::new();
    let result = output.write_tables(&vec![table]);
    assert!(result.contains("Name\tAge"));
    assert!(result.contains("John\t30"));
}

#[test]
fn test_could_be_table_row_rules() {
    let parser = PdfParser::new();
    assert!(parser.could_be_table_row("John\t30\tLondon"));
    assert!(parser.could_be_table_row("| Name | Age |"));
    assert!(parser.could_be_table_row("John    30    London"));
    assert!(!parser.could_be_table_row("# A heading"));
    assert!(!parser.could_be_table_row("see https://example.com for more"));
    assert!(!parser.could_be_table_row("tiny"));
    assert!(!parser.could_be_table_row("A plain sentence with single spaces."));
}

#[test]
fn test_parse_table_row_separators() {
    let parser = PdfParser::new();
    assert_eq!(parser.parse_table_row("John\t30"), vec!["John".to_string(), "30".to_string()]);
    assert_eq!(
        parser.parse_table_row("| Name | Age |"),
        vec!["Name".to_string(), "Age".to_string()]
    );
    assert_eq!(
        parser.parse_table_row("John    30    London"),
        vec!["John".to_string(), "30".to_string(), "London".to_string()]
    );
    // A single cell is no row.
    assert_eq!(parser.parse_table_row("just one cell"), Vec::<String>::new());
}

#[test]
fn test_extract_tables_from_text_finds_table() {
    let parser = PdfParser::new();
    let text = "Some introduction paragraph.\n\
                Name\tAge\n\
                John\t30\n\
                Jane\t25\n\
                A closing remark.";
    let tables = parser.extract_tables_from_text(text, 3);
    assert_eq!(tables.len(), 1);
    assert_eq!(tables[0].page, 3);
    assert_eq!(
        tables[0].data,
        vec![
            vec!["Name".to_string(), "Age".to_string()],
            vec!["John".to_string(), "30".to_string()],
            vec!["Jane".to_string(), "25".to_string()],
        ]
    );
    assert_eq!(tables[0].headers, Some(vec!["Name".to_string(), "Age".to_string()]));
}

#[test]
fn test_is_valid_table_rules() {
    let parser = PdfParser::new();
    let good = vec![
        vec!["a".to_string(), "b".to_string()],
        vec!["c".to_string(), "d".to_string()],
    ];
    assert!(parser.is_valid_table(&good));
    let one_row = vec![vec!["a".to_string(), "b".to_string()]];
    assert!(!parser.is_valid_table(&one_row));
    let one_col = vec![vec!["a".to_string()], vec!["b".to_string()]];
    assert!(!parser.is_valid_table(&one_col));
    let sparse = vec![
        vec!["a".to_string(), "".to_string()],
        vec!["".to_string(), "".to_string()],
    ];
    assert!(!parser.is_valid_table(&sparse));
}

#[test]
fn test_looks_like_header_rules() {
    let parser = PdfParser::new();
    let header = vec!["Name".to_string(), "City".to_string()];
    assert!(parser.looks_like_header(&header));
    let data = vec!["John 3".to_string(), "25".to_string()];
    assert!(!parser.looks_like_header(&data));
}

#[test]
fn test_normalize_pads_short_rows() {
    let parser = PdfParser::new();
    let lines = vec!["a\tb\tc".to_string(), "d\te".to_string()];
    let table = parser.parse_and_normalize_table(&lines);
    assert_eq!(
        table,
        vec![
            vec!["a".to_string(), "b".to_string(), "c".to_string()],
            vec!["d".to_string(), "e".to_string(), "".to_string()],
        ]
    );
}

#[test]
fn test_write_pdf_data_page_breaks() {
    let data = PdfData {
        pages: vec![
            Page { number: 1, text: "first".to_string(), tables: vec![] },
            Page { number: 2, text: "second".to_string(), tables: vec![] },
        ],
        metadata: PdfMetadata {
            title: None,
            author: None,
            subject: None,
            creator: None,
            producer: None,
            creation_date: None,
            modification_date: None,
            page_count: 2,
            file_size: 0,
        },
        tables: vec![],
    };
    let output = TextOutput::new();
    let result = output.write_pdf_data(&data);
    assert_eq!(result, "first\n--- Page 2 ---\n\nsecond");
}

#[test]
fn test_markdown_page_output() {
    let page = Page { number: 1, text: "Sample text content".to_string(), tables: vec![] };

    let output = docparse::pdf::MarkdownOutput::new(false);
    let result = output.write_page(&page);
    assert!(result.contains("# Page 1"));
    assert!(result.contains("Sample text content"));
}

#[test]
fn test_markdown_table_output() {
    let table = Table {
        page: 1,
        data: vec![
            vec!["Name".to_string(), "Age".to_string()],
            vec!["John".to_string(), "30".to_string()],
            vec!["Jane".to_string(), "25".to_string()],
        ],
        headers: Some(vec!["Name".to_string(), "Age".to_string()]),
    };

    let output = docparse::pdf::MarkdownOutput::new(false);
    let result = output.write_tables(&vec![table]);
    assert!(result.contains("| Name | Age |"));
    assert!(result.contains("| --- | --- |"));
    assert!(result.contains("| John | 30 |"));
}

#[test]
fn test_escape_markdown_special_chars() {
    let output = docparse::pdf::MarkdownOutput::new(false);
    let result = output.format_text_content("Text with *asterisk* and _underscore_");
    assert!(result.contains("\\*asterisk\\*"));
    assert!(result.contains("\\_underscore\\_"));
}

#[test]
fn test_markdown_cell_escape_exact() {
    let output = docparse::pdf::MarkdownOutput::new(false);
    let result = output.escape_markdown_table_cell("  a|b\nc\r  ");
    assert_eq!(result, "a\\|b c");
}

#[test]
fn test_csv_table_output() {
    let table = Table {
        page: 1,
        data: vec![
            vec!["Name".to_string(), "Age".to_string()],
            vec!["John".to_string(), "30".to_string()],
            vec!["Jane".to_string(), "25".to_string()],
        ],
        headers: Some(vec!["Name".to_string(), "Age".to_string()]),
    };

    let output = docparse::pdf::CsvOutput::new(b',', b'"', true);
    let result = output.write_tables(&vec![table]);
    assert!(result.contains("Name,Age"));
    assert!(result.contains("John,30"));
    assert!(result.contains("Jane,25"));
}

#[test]
fn test_csv_no_headers() {
    let table = Table {
        page: 1,
        data: vec![
            vec!["John".to_string(), "30".to_string()],
            vec!["Jane".to_string(), "25".to_string()],
        ],
        headers: None,
    };

    let output = docparse::pdf::CsvOutput::new(b',', b'"', false);
    let result = output.write_tables(&vec![table]);
    assert!(result.contains("John,30"));
    assert!(result.contains("Jane,25"));
    // Should not contain header row
    assert!(!result.starts_with("Name,Age"));
}

#[test]
fn test_csv_custom_delimiter() {
    let table = Table {
        page: 1,
        data: vec![vec!["John".to_string(), "30".to_string()]],
        headers: None,
    };

    let output = docparse::pdf::CsvOutput::new(b'\t', b'"', false);
    let result = output.write_tables(&vec![table]);
    assert!(result.contains("John\t30"));
}

#[test]
fn test_csv_page_output_no_tables() {
    let page = Page { number: 1, text: "Simple text content".to_string(), tables: vec![] };

    let output = docparse::pdf::CsvOutput::new(b',', b'"', true);
    let result = output.write_page(&page);
    assert!(result.contains("Content"));
    assert!(result.contains("Simple text content"));
}

#[test]
fn test_csv_table_separator_between_tables() {
    let t1 = Table {
        page: 1,
        data: vec![vec!["a".to_string(), "b".to_string()]],
        headers: None,
    };
    let t2 = Table {
        page: 2,
        data: vec![vec!["c".to_string(), "d".to_string()]],
        headers: None,
    };
    let output = docparse::pdf::CsvOutput::new(b',', b'"', false);
    let result = output.write_tables(&vec![t1, t2]);
    assert_eq!(result, "a,b\n--- Table from Page 2 ---,\nc,d\n");
}
