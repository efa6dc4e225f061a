use docparse::excel::{CsvOutput, ExcelData, JsonOutput, OutputFormat, OutputProcessor, Sheet, TableOutput};

#[test]
fn test_csv_output_creation() {
    let _csv = CsvOutput::new(b',', b'"', true);
    let _csv_tab = CsvOutput::new(b'\t', b'"', false);
}

#[test]
fn test_empty_sheet_write() {
    let csv_output = CsvOutput::default();
    let empty_sheet = Sheet { name: "Empty".to_string(), data: vec![] };

    let output = csv_output.write_sheet(&empty_sheet);
    assert_eq!(output.len(), 0);
}

#[test]
fn test_single_row_write() {
    let csv_output = CsvOutput::default();
    let sheet = Sheet {
        name: "Test".to_string(),
        data: vec![vec!["Name".to_string(), "Age".to_string()]],
    };

    let result = csv_output.write_sheet(&sheet);
    assert!(result.contains("Name,Age"));
}

#[test]
fn test_multiple_rows_write() {
    let csv_output = CsvOutput::default();
    let sheet = Sheet {
        name: "Test".to_string(),
        data: vec![
            vec!["Name".to_string(), "Age".to_string()],
            vec!["John".to_string(), "25".to_string()],
            vec!["Jane".to_string(), "30".to_string()],
        ],
    };

    let result = csv_output.write_sheet(&sheet);
    assert!(result.contains("Name,Age"));
    assert!(result.contains("John,25"));
    assert!(result.contains("Jane,30"));
}

#[test]
fn test_output_format_creation() {
    let _csv = OutputFormat::csv();
    let _csv_tab = OutputFormat::csv_with_delimiter(b'\t');
    let _csv_no_headers = OutputFormat::csv_no_headers();
}

#[test]
fn test_json_output() {
    let sheet = Sheet {
        name: "TestSheet".to_string(),
        data: vec![
            vec!["Name".to_string(), "Age".to_string()],
            vec!["John".to_string(), "25".to_string()],
        ],
    };

    let json_output = JsonOutput::new(false);
    let result = json_output.write_sheet(&sheet);
    assert!(result.contains("TestSheet"));
    assert!(result.contains("Name"));
    assert!(result.contains("John"));
}

#[test]
fn test_json_pretty_output() {
    let sheet = Sheet {
        name: "TestSheet".to_string(),
        data: vec![
            vec!["Name".to_string(), "Age".to_string()],
            vec!["John".to_string(), "25".to_string()],
        ],
    };

    let json_output = JsonOutput::new(true);
    let result = json_output.write_sheet(&sheet);
    // Pretty format should have indentation
    assert!(result.contains("  "));
    assert!(result.contains("TestSheet"));
}

#[test]
fn test_table_output() {
    let sheet = Sheet {
        name: "TestSheet".to_string(),
        data: vec![
            vec!["Name".to_string(), "Age".to_string()],
            vec!["John".to_string(), "25".to_string()],
            vec!["Jane".to_string(), "30".to_string()],
        ],
    };

    let table_output = TableOutput::new(None, true);
    let result = table_output.write_sheet(&sheet);
    assert!(result.contains("TestSheet"));
    assert!(result.contains("Name"));
    assert!(result.contains("John"));
    assert!(result.contains("Jane"));
}

#[test]
fn test_table_no_borders() {
    let sheet = Sheet {
        name: "TestSheet".to_string(),
        data: vec![
            vec!["Name".to_string(), "Age".to_string()],
            vec!["John".to_string(), "25".to_string()],
        ],
    };

    let table_output = TableOutput::new(None, false);
    let result = table_output.write_sheet(&sheet);
    assert!(result.contains("TestSheet"));
    assert!(result.contains("Name"));
    assert!(result.contains("John"));
}

#[test]
fn test_empty_sheet() {
    let sheet = Sheet { name: "EmptySheet".to_string(), data: vec![] };

    let table_output = TableOutput::new(None, true);
    let result = table_output.write_sheet(&sheet);
    assert!(result.contains("EmptySheet"));
    assert!(result.contains("(Empty sheet)"));
}

#[test]
fn test_csv_field_quoting_exact() {
    let csv_output = CsvOutput::default();
    let sheet = Sheet {
        name: "Q".to_string(),
        data: vec![vec!["a,b".to_string(), "say \"hi\"".to_string(), "plain".to_string()]],
    };
    let result = csv_output.write_sheet(&sheet);
    assert_eq!(result, "\"a,b\",\"say \"\"hi\"\"\",plain\n");
}

#[test]
fn test_csv_multi_sheet_comments() {
    let csv_output = CsvOutput::default();
    let data = ExcelData {
        sheets: vec![
            Sheet { name: "One".to_string(), data: vec![vec!["a".to_string()]] },
            Sheet { name: "Two".to_string(), data: vec![vec!["b".to_string()]] },
        ],
    };
    let result = csv_output.write_excel_data(&data);
    assert_eq!(result, "# Sheet: One\na\n\n# Sheet: Two\nb\n");
}

#[test]
fn test_json_output_exact() {
    let sheet = Sheet {
        name: "S".to_string(),
        data: vec![vec!["a".to_string(), "b".to_string()]],
    };
    let json_output = JsonOutput::new(false);
    let result = json_output.write_sheet(&sheet);
    assert_eq!(result, "{\"name\":\"S\",\"rows\":1,\"columns\":2,\"data\":[[\"a\",\"b\"]]}\n");
}

#[test]
fn test_bordered_table_exact() {
    let table_output = TableOutput::new(None, true);
    let grid = vec![
        vec!["ab".to_string(), "c".to_string()],
        vec!["d".to_string(), "ef".to_string()],
    ];
    let result = table_output.create_table(&grid);
    let expected = "\u{250c}\u{2500}\u{2500}\u{2500}\u{2500}\u{252c}\u{2500}\u{2500}\u{2500}\u{2500}\u{2510}\n\
                    \u{2502} ab \u{2502} c  \u{2502}\n\
                    \u{251c}\u{2500}\u{2500}\u{2500}\u{2500}\u{253c}\u{2500}\u{2500}\u{2500}\u{2500}\u{2524}\n\
                    \u{2502} d  \u{2502} ef \u{2502}\n\
                    \u{2514}\u{2500}\u{2500}\u{2500}\u{2500}\u{2534}\u{2500}\u{2500}\u{2500}\u{2500}\u{2518}\n";
    assert_eq!(result, expected);
}

#[test]
fn test_table_width_cap_truncates() {
    let table_output = TableOutput::new(Some(4), false);
    let grid = vec![vec!["abcdefgh".to_string(), "xy".to_string()]];
    let result = table_output.create_table(&grid);
    // Two columns share a cap of 4: each renders at width 2, the long cell
    // is clipped to one byte and an ellipsis.
    assert_eq!(result, "a\u{2026}  xy\n");
}

#[test]
fn test_processor_dispatch() {
    let processor = OutputProcessor::new();
    let data = ExcelData {
        sheets: vec![Sheet {
            name: "T".to_string(),
            data: vec![vec!["v".to_string()]],
        }],
    };
    let csv = processor.process(&data, &OutputFormat::csv());
    assert_eq!(csv, "v\n");
    let table = processor.process(&data, &OutputFormat::table());
    assert!(table.contains("=== Sheet: T ==="));
}
