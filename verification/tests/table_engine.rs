use docparse::table_model::{
    CellDataType, CellFormatting, CellType, MergeCellsHandling, TableCell, TableData,
    TableExtractionConfig, TableExtractionMode, TableExtractor, TableRow,
};

#[test]
fn test_table_data_creation() {
    let table_data = TableData::new();
    assert!(table_data.is_empty());
    assert_eq!(table_data.row_count(), 0);
    assert_eq!(table_data.column_count(), 0);
}

#[test]
fn test_table_row_creation() {
    let row = TableRow::new(0);
    assert!(row.is_empty());
    assert_eq!(row.cell_count(), 0);
    assert_eq!(row.row_index, 0);
    assert!(!row.is_header);
}

#[test]
fn test_table_cell_creation() {
    let content = "Test content".to_string();
    let cell = TableCell::new(content.clone());
    assert_eq!(cell.content, content);
    assert!(!cell.is_empty());
    assert!(!cell.is_merged());
    assert!(!cell.is_header());
}

#[test]
fn test_empty_cell() {
    let cell = TableCell::empty();
    assert!(cell.is_empty());
    assert_eq!(cell.content, "");
    assert!(matches!(cell.cell_type, CellType::Empty));
}

#[test]
fn test_cell_formatting() {
    let formatting = CellFormatting::bold();
    assert!(formatting.bold);
    assert!(!formatting.italic);
    assert!(formatting.has_formatting());
}

#[test]
fn test_table_data_add_row() {
    let mut table_data = TableData::new();
    let mut row = TableRow::new(0);
    row.add_cell(TableCell::new("Cell 1".to_string()));
    row.add_cell(TableCell::new("Cell 2".to_string()));

    table_data.add_row(row);
    assert_eq!(table_data.row_count(), 1);
    assert_eq!(table_data.column_count(), 2);
}

#[test]
fn test_table_extraction_config() {
    let config = TableExtractionConfig::simple();
    assert!(matches!(config.mode, TableExtractionMode::Simple));
    assert!(!config.detect_headers);
    assert!(!config.preserve_formatting);
}

#[test]
fn test_table_extraction_config_builder() {
    let config = TableExtractionConfig::new()
        .with_headers(true)
        .with_formatting(true)
        .with_mode(TableExtractionMode::Full);

    assert!(config.detect_headers);
    assert!(config.preserve_formatting);
    assert!(matches!(config.mode, TableExtractionMode::Full));
}

#[test]
fn test_cell_content_length() {
    let cell = TableCell::new("Hello, 世界!".to_string());
    assert_eq!(cell.content_length(), 10); // 8 ASCII + 2 Unicode chars
}

#[test]
fn test_row_mark_as_header() {
    let mut row = TableRow::new(0);
    row.add_cell(TableCell::new("Header 1".to_string()));
    row.add_cell(TableCell::new("Header 2".to_string()));

    row.mark_as_header();
    assert!(row.is_header);
    assert!(row.cells.iter().all(|cell| cell.is_header()));
}

#[test]
fn test_table_get_cell() {
    let mut table_data = TableData::new();
    let mut row = TableRow::new(0);
    row.add_cell(TableCell::new("Cell 1".to_string()));
    row.add_cell(TableCell::new("Cell 2".to_string()));

    table_data.add_row(row);

    let cell = table_data.get_cell(0, 0);
    assert!(cell.is_some());
    assert_eq!(cell.unwrap().content, "Cell 1");

    let cell = table_data.get_cell(0, 1);
    assert!(cell.is_some());
    assert_eq!(cell.unwrap().content, "Cell 2");

    let cell = table_data.get_cell(1, 0);
    assert!(cell.is_none());
}

#[test]
fn test_cell_formatting_apply() {
    let formatting = CellFormatting {
        bold: true,
        italic: true,
        underline: false,
        ..CellFormatting::new()
    };

    let result = formatting.apply_to_text("Hello");
    assert_eq!(result, "***Hello***");
}

#[test]
fn test_table_extractor_creation() {
    let config = TableExtractionConfig::simple();
    let extractor = TableExtractor::new(config);

    // Test that extractor is created successfully
    assert!(matches!(extractor.config.mode, TableExtractionMode::Simple));
}

#[test]
fn test_enhanced_header_detection() {
    let extractor = TableExtractor::new(TableExtractionConfig::new().with_headers(true));

    // Create test table data with clear headers
    let mut table_data = TableData::new();

    // Header row with typical header content
    let mut header_row = TableRow::new(0);
    header_row.add_cell(TableCell::new("Name".to_string()));
    header_row.add_cell(TableCell::new("Age".to_string()));
    header_row.add_cell(TableCell::new("Department".to_string()));
    table_data.add_row(header_row);

    // Data rows
    let mut data_row1 = TableRow::new(1);
    data_row1.add_cell(TableCell::new("John Smith".to_string()));
    data_row1.add_cell(TableCell::new("25".to_string()));
    data_row1.add_cell(TableCell::new("Engineering".to_string()));
    table_data.add_row(data_row1);

    let mut data_row2 = TableRow::new(2);
    data_row2.add_cell(TableCell::new("Jane Doe".to_string()));
    data_row2.add_cell(TableCell::new("30".to_string()));
    data_row2.add_cell(TableCell::new("Marketing".to_string()));
    table_data.add_row(data_row2);

    // Test header detection
    extractor.detect_table_headers(&mut table_data);

    // Should detect headers
    assert!(table_data.has_header);
    assert!(table_data.headers.is_some());

    let headers = table_data.headers.as_ref().unwrap();
    assert_eq!(headers.len(), 3);
    assert_eq!(headers[0], "Name");
    assert_eq!(headers[1], "Age");
    assert_eq!(headers[2], "Department");
}

#[test]
fn test_data_type_detection() {
    let extractor = TableExtractor::new(TableExtractionConfig::simple());

    // Test numeric detection
    assert_eq!(extractor.detect_cell_data_type("123"), CellDataType::Number);
    assert_eq!(extractor.detect_cell_data_type("123.45"), CellDataType::Number);
    assert_eq!(extractor.detect_cell_data_type("$100.50"), CellDataType::Number);
    assert_eq!(extractor.detect_cell_data_type("25%"), CellDataType::Number);
    assert_eq!(extractor.detect_cell_data_type("1,234.56"), CellDataType::Number);
    assert_eq!(extractor.detect_cell_data_type("1.23e-4"), CellDataType::Number);

    // Test date detection
    assert_eq!(extractor.detect_cell_data_type("2023-12-25"), CellDataType::Date);
    assert_eq!(extractor.detect_cell_data_type("12/25/2023"), CellDataType::Date);
    assert_eq!(extractor.detect_cell_data_type("Dec 25, 2023"), CellDataType::Date);
    assert_eq!(extractor.detect_cell_data_type("today"), CellDataType::Date);
    assert_eq!(extractor.detect_cell_data_type("2 days ago"), CellDataType::Date);

    // Test boolean detection
    assert_eq!(extractor.detect_cell_data_type("true"), CellDataType::Boolean);
    assert_eq!(extractor.detect_cell_data_type("false"), CellDataType::Boolean);
    assert_eq!(extractor.detect_cell_data_type("yes"), CellDataType::Boolean);
    assert_eq!(extractor.detect_cell_data_type("no"), CellDataType::Boolean);
    assert_eq!(extractor.detect_cell_data_type("✓"), CellDataType::Boolean);
    assert_eq!(extractor.detect_cell_data_type("X"), CellDataType::Boolean);

    // Test text detection
    assert_eq!(extractor.detect_cell_data_type("Hello World"), CellDataType::Text);
    assert_eq!(extractor.detect_cell_data_type("Product Name"), CellDataType::Text);

    // Test empty detection
    assert_eq!(extractor.detect_cell_data_type(""), CellDataType::Empty);
    assert_eq!(extractor.detect_cell_data_type("   "), CellDataType::Empty);
}

#[test]
fn test_currency_detection() {
    let extractor = TableExtractor::new(TableExtractionConfig::simple());

    // Test various currency symbols
    assert!(extractor.is_currency_pattern("$100"));
    assert!(extractor.is_currency_pattern("€50.25"));
    assert!(extractor.is_currency_pattern("¥1000"));
    assert!(extractor.is_currency_pattern("£75.50"));
    assert!(extractor.is_currency_pattern("100$"));

    // Test currency codes
    assert!(extractor.is_currency_pattern("USD 100"));
    assert!(extractor.is_currency_pattern("100 EUR"));
    assert!(extractor.is_currency_pattern("GBP 50.25"));

    // Test formatted currency
    assert!(extractor.is_currency_pattern("$1,234.56"));
    assert!(extractor.is_currency_pattern("€2,500.00"));

    // Test non-currency
    assert!(!extractor.is_currency_pattern("100"));
    assert!(!extractor.is_currency_pattern("text"));
    assert!(!extractor.is_currency_pattern("$"));
}

#[test]
fn test_merged_cells_detection() {
    let extractor = TableExtractor::new(
        TableExtractionConfig::new().with_merge_cells_handling(MergeCellsHandling::Preserve),
    );

    // Create test table with merged cells pattern
    let mut table_data = TableData::new();

    // Row 1: "Header 1" | "Header 2" | "Header 3"
    let mut row1 = TableRow::new(0);
    row1.add_cell(TableCell::new("Header 1".to_string()));
    row1.add_cell(TableCell::new("Header 2".to_string()));
    row1.add_cell(TableCell::new("Header 3".to_string()));
    table_data.add_row(row1);

    // Row 2: "Data 1" | "" | "Data 3" (middle cell empty - simulates horizontal merge)
    let mut row2 = TableRow::new(1);
    row2.add_cell(TableCell::new("Data 1".to_string()));
    row2.add_cell(TableCell::empty());
    row2.add_cell(TableCell::new("Data 3".to_string()));
    table_data.add_row(row2);

    // Row 3: "Data 4" | "Data 5" | "Data 6"
    let mut row3 = TableRow::new(2);
    row3.add_cell(TableCell::new("Data 4".to_string()));
    row3.add_cell(TableCell::new("Data 5".to_string()));
    row3.add_cell(TableCell::new("Data 6".to_string()));
    table_data.add_row(row3);

    // Test merged cells handling
    extractor.handle_merged_cells(&mut table_data);

    // The middle cell in row 2 should be marked as merged
    let middle_cell = &table_data.rows[1].cells[1];
    assert!(middle_cell.is_merged());
}

#[test]
fn test_formatting_extraction() {
    let extractor = TableExtractor::new(TableExtractionConfig::new().with_formatting(true));

    // Test formatting merge
    let base_formatting = CellFormatting::new();
    let bold_formatting = CellFormatting::bold();
    let italic_formatting = CellFormatting::italic();

    let merged = extractor.merge_formatting(base_formatting, bold_formatting);
    assert!(merged.bold);
    assert!(!merged.italic);

    let merged2 = extractor.merge_formatting(merged, italic_formatting);
    assert!(merged2.bold);
    assert!(merged2.italic);
}

#[test]
fn test_highlight_color_conversion() {
    let extractor = TableExtractor::new(TableExtractionConfig::simple());

    // Test standard colors
    assert_eq!(extractor.convert_highlight_to_hex("yellow"), "#FFFF00");
    assert_eq!(extractor.convert_highlight_to_hex("red"), "#FF0000");
    assert_eq!(extractor.convert_highlight_to_hex("blue"), "#0000FF");
    assert_eq!(extractor.convert_highlight_to_hex("green"), "#00FF00");

    // Test dark colors
    assert_eq!(extractor.convert_highlight_to_hex("darkRed"), "#800000");
    assert_eq!(extractor.convert_highlight_to_hex("darkBlue"), "#000080");

    // Test case insensitive
    assert_eq!(extractor.convert_highlight_to_hex("YELLOW"), "#FFFF00");
    assert_eq!(extractor.convert_highlight_to_hex("Red"), "#FF0000");

    // Test hex passthrough
    assert_eq!(extractor.convert_highlight_to_hex("FF5500"), "#FF5500");
}

#[test]
fn test_date_pattern_detection() {
    let extractor = TableExtractor::new(TableExtractionConfig::simple());

    // Test standard date formats
    assert!(extractor.is_date_pattern("2023-12-25"));
    assert!(extractor.is_date_pattern("12/25/2023"));
    assert!(extractor.is_date_pattern("25/12/2023"));
    assert!(extractor.is_date_pattern("12.25.2023"));
    assert!(extractor.is_date_pattern("Dec 25, 2023"));
    assert!(extractor.is_date_pattern("25 Dec 2023"));

    // Test with time
    assert!(extractor.is_date_pattern("2023-12-25T10:30:00"));
    assert!(extractor.is_date_pattern("12/25/2023 10:30"));
    assert!(extractor.is_date_pattern("10:30 AM"));
    assert!(extractor.is_date_pattern("22:30:45"));

    // Test relative dates
    assert!(extractor.is_date_pattern("today"));
    assert!(extractor.is_date_pattern("tomorrow"));
    assert!(extractor.is_date_pattern("2 days ago"));
    assert!(extractor.is_date_pattern("next week"));
    assert!(extractor.is_date_pattern("last month"));

    // Test non-dates
    assert!(!extractor.is_date_pattern("hello"));
    assert!(!extractor.is_date_pattern("123"));
    assert!(!extractor.is_date_pattern("product name"));
}

#[test]
fn test_header_content_patterns() {
    let extractor = TableExtractor::new(TableExtractionConfig::new());

    // Create test row with header-like content
    let mut header_row = TableRow::new(0);
    header_row.add_cell(TableCell::new("Name".to_string())); // Common header word
    header_row.add_cell(TableCell::new("ID".to_string())); // Common header word
    header_row.add_cell(TableCell::new("Status".to_string())); // Common header word
    header_row.add_cell(TableCell::new("Amount".to_string())); // Common header word

    let score = extractor.check_header_content_pattern(&header_row);
    assert!(score.num * 2 > score.den); // Should have high score for header-like content

    // Create test row with non-header content
    let mut data_row = TableRow::new(1);
    data_row.add_cell(TableCell::new("John Smith".to_string()));
    data_row.add_cell(TableCell::new("12345".to_string()));
    data_row.add_cell(TableCell::new("Active".to_string()));
    data_row.add_cell(TableCell::new("$1,234.56".to_string()));

    let score2 = extractor.check_header_content_pattern(&data_row);
    assert!(score2.num * score.den < score.num * score2.den); // Lower score for data content
}

#[test]
fn test_scientific_notation() {
    let extractor = TableExtractor::new(TableExtractionConfig::simple());

    // Test scientific notation patterns
    assert!(extractor.is_scientific_notation("1.23e-4"));
    assert!(extractor.is_scientific_notation("1.23E-4"));
    assert!(extractor.is_scientific_notation("1e10"));
    assert!(extractor.is_scientific_notation("2.5e+3"));
    assert!(extractor.is_scientific_notation("6.022e23"));

    // Test non-scientific notation
    assert!(!extractor.is_scientific_notation("123"));
    assert!(!extractor.is_scientific_notation("hello"));
    assert!(!extractor.is_scientific_notation("e"));
    assert!(!extractor.is_scientific_notation("123e"));
}

#[test]
fn test_classifier_fixed_points() {
    let extractor = TableExtractor::new(TableExtractionConfig::simple());
    assert_eq!(extractor.detect_cell_data_type(""), CellDataType::Empty);
    assert_eq!(extractor.detect_cell_data_type("123"), CellDataType::Number);
    assert_eq!(extractor.detect_cell_data_type("$1,234.56"), CellDataType::Number);
    assert_eq!(extractor.detect_cell_data_type("25%"), CellDataType::Number);
    assert_eq!(extractor.detect_cell_data_type("1.23e-4"), CellDataType::Number);
    assert_eq!(extractor.detect_cell_data_type("2023-12-25"), CellDataType::Date);
    assert_eq!(extractor.detect_cell_data_type("today"), CellDataType::Date);
    assert_eq!(extractor.detect_cell_data_type("true"), CellDataType::Boolean);
    assert_eq!(extractor.detect_cell_data_type("✓"), CellDataType::Boolean);
    assert_eq!(extractor.detect_cell_data_type("Hello World"), CellDataType::Text);
}

#[test]
fn test_header_detection_rejects_plain_data() {
    // Two data-only rows, numeric-heavy, no formatting difference: the
    // confidence stays at or below the threshold and no header is declared.
    let extractor = TableExtractor::new(TableExtractionConfig::new().with_headers(true));
    let mut table_data = TableData::new();
    let mut row1 = TableRow::new(0);
    row1.add_cell(TableCell::new("123456".to_string()));
    row1.add_cell(TableCell::new("987654".to_string()));
    table_data.add_row(row1);
    let mut row2 = TableRow::new(1);
    row2.add_cell(TableCell::new("111111".to_string()));
    row2.add_cell(TableCell::new("222222".to_string()));
    table_data.add_row(row2);

    extractor.detect_table_headers(&mut table_data);
    assert!(!table_data.has_header);
    assert!(table_data.headers.is_none());
}

#[test]
fn test_merge_spans_on_anchor_only() {
    // [["H1","H2","H3"],["D1","","D3"],["D4","D5","D6"]]: row 1 column 1 is
    // merged with no span of its own; the column-0 anchor carries colspan 2.
    let extractor = TableExtractor::new(
        TableExtractionConfig::new().with_merge_cells_handling(MergeCellsHandling::Preserve),
    );
    let mut table_data = TableData::new();
    for (i, cells) in [["H1", "H2", "H3"], ["D1", "", "D3"], ["D4", "D5", "D6"]]
        .iter()
        .enumerate()
    {
        let mut row = TableRow::new(i);
        for text in cells.iter() {
            if text.is_empty() {
                row.add_cell(TableCell::empty());
            } else {
                row.add_cell(TableCell::new(text.to_string()));
            }
        }
        table_data.add_row(row);
    }
    table_data.update_statistics();
    extractor.handle_merged_cells(&mut table_data);

    let anchor = &table_data.rows[1].cells[0];
    assert!(anchor.is_merged());
    assert_eq!(anchor.colspan, Some(2));
    assert_eq!(anchor.rowspan, None);
    let member = &table_data.rows[1].cells[1];
    assert!(member.is_merged());
    assert_eq!(member.colspan, None);
    assert_eq!(member.rowspan, None);
    // No other cell was touched.
    assert!(!table_data.rows[0].cells[0].is_merged());
    assert!(!table_data.rows[2].cells[2].is_merged());
}

#[test]
fn test_filter_empty_cells_round_trip() {
    // With empty cells kept the pipeline drops nothing; the filter applied
    // twice equals the filter applied once.
    let keep_config = TableExtractionConfig::simple().with_empty_cells(true);
    let extractor = TableExtractor::new(keep_config);
    let grid = vec![
        vec!["a".to_string(), "".to_string(), "c".to_string()],
        vec!["".to_string(), "e".to_string()],
    ];
    let table = extractor.extract_table(&grid);
    assert_eq!(table.rows[0].cells.len(), 3);
    assert_eq!(table.rows[1].cells.len(), 2);

    let drop_config = TableExtractionConfig::simple().with_empty_cells(false);
    let extractor2 = TableExtractor::new(drop_config);
    let mut once = extractor2.extract_table(&grid);
    assert_eq!(once.rows[0].cells.len(), 2);
    assert_eq!(once.rows[1].cells.len(), 1);
    assert_eq!(once.column_count(), 2);

    let before: Vec<Vec<String>> = once
        .rows
        .iter()
        .map(|r| r.cells.iter().map(|c| c.content.clone()).collect())
        .collect();
    extractor2.filter_empty_cells(&mut once);
    let after: Vec<Vec<String>> = once
        .rows
        .iter()
        .map(|r| r.cells.iter().map(|c| c.content.clone()).collect())
        .collect();
    assert_eq!(before, after);
}

#[test]
fn test_extract_table_statistics() {
    // column_count is the widest row, row_count the number of rows, after
    // the full pipeline.
    let config = TableExtractionConfig::simple().with_empty_cells(true);
    let extractor = TableExtractor::new(config);
    let grid = vec![
        vec!["a".to_string()],
        vec!["b".to_string(), "c".to_string(), "d".to_string()],
        vec!["e".to_string(), "f".to_string()],
    ];
    let table = extractor.extract_table(&grid);
    assert_eq!(table.row_count(), 3);
    assert_eq!(table.column_count(), 3);
}

#[test]
fn test_expand_copies_anchor_content() {
    let extractor = TableExtractor::new(
        TableExtractionConfig::new()
            .with_headers(false)
            .with_merge_cells_handling(MergeCellsHandling::Expand),
    );
    let mut table_data = TableData::new();
    let mut row = TableRow::new(0);
    row.add_cell(TableCell::new("Anchor".to_string()));
    row.add_cell(TableCell::empty());
    row.add_cell(TableCell::empty());
    table_data.add_row(row);
    table_data.update_statistics();
    extractor.expand_merged_cells(&mut table_data);

    assert_eq!(table_data.rows[0].cells[0].content, "Anchor");
    assert_eq!(table_data.rows[0].cells[1].content, "Anchor");
    assert_eq!(table_data.rows[0].cells[2].content, "Anchor");
    assert!(table_data.rows[0].cells.iter().all(|c| !c.is_merged()));
}

#[test]
fn test_non_empty_cells_and_get_column() {
    let mut row = TableRow::new(0);
    row.add_cell(TableCell::new("a".to_string()));
    row.add_cell(TableCell::empty());
    row.add_cell(TableCell::new("b".to_string()));
    let kept = row.non_empty_cells();
    assert_eq!(kept.len(), 2);
    assert_eq!(kept[0].content, "a");
    assert_eq!(kept[1].content, "b");

    let mut table = TableData::new();
    table.add_row(row);
    let mut short_row = TableRow::new(1);
    short_row.add_cell(TableCell::new("x".to_string()));
    table.add_row(short_row);
    let col = table.get_column(2);
    assert_eq!(col.len(), 2);
    assert_eq!(col[0].unwrap().content, "b");
    assert!(col[1].is_none());
}

#[test]
fn test_pipeline_idempotent_on_processed_table() {
    // Running the full pipeline twice, with header detection re-run, leaves
    // the headers and the merged markings as the first run set them.
    let config = TableExtractionConfig::new()
        .with_headers(true)
        .with_merge_cells_handling(MergeCellsHandling::Preserve)
        .with_empty_cells(true);
    let extractor = TableExtractor::new(config);
    let grid = vec![
        vec!["Name".to_string(), "Age".to_string(), "Department".to_string()],
        vec!["John".to_string(), "".to_string(), "Eng".to_string()],
        vec!["Jane".to_string(), "30".to_string(), "Mkt".to_string()],
    ];
    let mut table = extractor.extract_table(&grid);
    let headers_once = table.headers.clone();
    let merged_once: Vec<Vec<bool>> = table
        .rows
        .iter()
        .map(|r| r.cells.iter().map(|c| c.is_merged()).collect())
        .collect();

    extractor.process_table_data(&mut table);
    assert_eq!(table.headers, headers_once);
    let merged_twice: Vec<Vec<bool>> = table
        .rows
        .iter()
        .map(|r| r.cells.iter().map(|c| c.is_merged()).collect())
        .collect();
    for (row_once, row_twice) in merged_once.iter().zip(merged_twice.iter()) {
        for (a, b) in row_once.iter().zip(row_twice.iter()) {
            if *a {
                assert!(*b);
            }
        }
    }
}

#[test]
fn test_binary_digits_are_boolean() {
    let extractor = TableExtractor::new(TableExtractionConfig::new());
    assert_eq!(extractor.detect_cell_data_type("0"), CellDataType::Boolean);
    assert_eq!(extractor.detect_cell_data_type("1"), CellDataType::Boolean);
    assert_eq!(extractor.detect_cell_data_type("2"), CellDataType::Number);
    assert_eq!(extractor.detect_cell_data_type("10"), CellDataType::Number);
}

#[test]
fn test_cyrillic_tokens_classify() {
    let extractor = TableExtractor::new(TableExtractionConfig::new());
    assert_eq!(extractor.detect_cell_data_type("\u{414}\u{410}"), CellDataType::Boolean);
    assert_eq!(extractor.detect_cell_data_type("\u{41d}\u{435}\u{442}"), CellDataType::Boolean);
    assert_eq!(
        extractor.detect_cell_data_type("\u{421}\u{415}\u{413}\u{41e}\u{414}\u{41d}\u{42f}"),
        CellDataType::Date
    );
}

#[test]
fn test_header_pattern_counts_digit_runs() {
    let extractor = TableExtractor::new(TableExtractionConfig::new());

    // Four digits spread over short runs still read as a header label.
    let mut spread = TableRow::new(0);
    spread.add_cell(TableCell::new("a1b2c3d4".to_string()));
    let s1 = extractor.check_header_content_pattern(&spread);
    assert_eq!((s1.num, s1.den), (1, 1));

    // A run longer than three digits reads as data.
    let mut run = TableRow::new(0);
    run.add_cell(TableCell::new("xq 12345".to_string()));
    let s2 = extractor.check_header_content_pattern(&run);
    assert_eq!((s2.num, s2.den), (0, 1));
}
