use axon_parser::parse;
use axon_parser::parse_data_block;
use axon_parser::parse_row;
use axon_parser::parse_schema;
use axon_parser::parse_value;
use axon_parser::split_row;
use axon_parser::unescape_char;
use axon_parser::unescape_string;
use axon_parser::AxonType;
use axon_parser::AxonValue;
use axon_parser::FieldDefinition;
use axon_parser::ParseError;
use axon_parser::Schema;

fn user_schema() -> Schema {
    Schema {
        name: "User".to_string(),
        fields: vec![
            FieldDefinition {
                name: "id".to_string(),
                field_type: AxonType::Integer,
                is_nullable: false,
            },
            FieldDefinition {
                name: "name".to_string(),
                field_type: AxonType::String,
                is_nullable: false,
            },
        ],
    }
}

#[test]
fn tokenize_three_tokens() {
    assert_eq!(split_row("a|b|c"), vec!["a", "b", "c"]);
}

#[test]
fn tokenize_trailing_separator_keeps_empty_token() {
    assert_eq!(split_row("a|"), vec!["a", ""]);
}

#[test]
fn tokenize_empty_line_yields_no_tokens() {
    assert_eq!(split_row(""), Vec::<String>::new());
}

#[test]
fn tokenize_quoted_pipe_is_literal() {
    assert_eq!(split_row("a|\"b|c\"|d"), vec!["a", "b|c", "d"]);
}

#[test]
fn tokenize_escaped_pipe_is_literal() {
    assert_eq!(split_row("a\\|b"), vec!["a|b"]);
}

#[test]
fn tokenize_inner_empty_tokens_kept() {
    assert_eq!(split_row("a||b"), vec!["a", "", "b"]);
}

#[test]
fn unescape_backslash_n_gives_newline() {
    let s = unescape_string("a\\nb");
    assert!(s.contains('\n'));
    assert_eq!(s, "a\nb");
}

#[test]
fn unescape_table() {
    assert_eq!(unescape_char('n'), '\n');
    assert_eq!(unescape_char('t'), '\t');
    assert_eq!(unescape_char('r'), '\r');
    assert_eq!(unescape_char('x'), 'x');
    assert_eq!(unescape_string("a\\tb\\rc\\\\d"), "a\tb\rc\\d");
}

#[test]
fn from_code_recognizes_the_five_codes() {
    assert_eq!(AxonType::from_code('S'), Ok(AxonType::String));
    assert_eq!(AxonType::from_code('I'), Ok(AxonType::Integer));
    assert_eq!(AxonType::from_code('F'), Ok(AxonType::Float));
    assert_eq!(AxonType::from_code('B'), Ok(AxonType::Boolean));
    assert_eq!(AxonType::from_code('T'), Ok(AxonType::Timestamp));
    assert_eq!(AxonType::from_code('Q'), Err(ParseError::UnknownTypeCode('Q')));
}

#[test]
fn null_sentinel_beats_non_nullable_integer() {
    let schema = user_schema();
    let row = parse_row("_|Alice", &schema).unwrap();
    assert_eq!(row.get("id"), Some(&AxonValue::Null));
    assert_eq!(row.get("name"), Some(&AxonValue::String("Alice".to_string())));
}

#[test]
fn null_sentinel_for_every_type() {
    for t in [
        AxonType::String,
        AxonType::Integer,
        AxonType::Float,
        AxonType::Boolean,
        AxonType::Timestamp,
    ] {
        let schema = Schema {
            name: "T".to_string(),
            fields: vec![FieldDefinition {
                name: "v".to_string(),
                field_type: t,
                is_nullable: false,
            }],
        };
        let row = parse_row("_", &schema).unwrap();
        assert_eq!(row.get("v"), Some(&AxonValue::Null));
    }
}

#[test]
fn missing_tokens_leave_fields_absent() {
    let schema = user_schema();
    let row = parse_row("7", &schema).unwrap();
    assert_eq!(row.get("id"), Some(&AxonValue::Integer(7)));
    assert_eq!(row.get("name"), None);
    assert_eq!(row.entries.len(), 1);
}

#[test]
fn extra_tokens_are_ignored() {
    let schema = user_schema();
    let row = parse_row("7|x|ignored|also", &schema).unwrap();
    assert_eq!(row.entries.len(), 2);
}

#[test]
fn first_schema_wins_resolution() {
    let doc = "@schema User\nid:I\n@end\n@schema User\nid:S\nname:S\n@end\n@data User[1]\n5\n@end\n";
    let result = parse(doc).unwrap();
    assert_eq!(result.schemas.len(), 2);
    let block = &result.data_blocks[0];
    // resolved against the first User schema: one Integer field
    assert_eq!(block.rows[0].get("id"), Some(&AxonValue::Integer(5)));
    assert_eq!(block.rows[0].entries.len(), 1);
}

#[test]
fn declared_count_is_never_validated() {
    let doc = "@schema User\nid:I\nname:S\n@end\n@data User[999]\n1|a\n2|b\n@end\n";
    let result = parse(doc).unwrap();
    let block = &result.data_blocks[0];
    assert_eq!(block.count, 999);
    assert_eq!(block.rows.len(), 2);
}

#[test]
fn end_to_end_document() {
    let doc = "@schema User\nid:I\nname:S\nactive:B\nage:I?\n@end\n@data User[2]\n1|Alice|1|28\n2|Bob|0|_\n@end\n";
    let result = parse(doc).unwrap();
    assert_eq!(result.schemas.len(), 1);
    let schema = &result.schemas[0];
    assert_eq!(schema.name, "User");
    assert_eq!(schema.fields.len(), 4);
    assert_eq!(schema.fields[0].name, "id");
    assert_eq!(schema.fields[0].field_type, AxonType::Integer);
    assert!(!schema.fields[0].is_nullable);
    assert_eq!(schema.fields[3].name, "age");
    assert_eq!(schema.fields[3].field_type, AxonType::Integer);
    assert!(schema.fields[3].is_nullable);
    assert_eq!(result.data_blocks.len(), 1);
    let block = &result.data_blocks[0];
    assert_eq!(block.schema_name, "User");
    assert_eq!(block.count, 2);
    assert_eq!(block.rows.len(), 2);
    let r0 = &block.rows[0];
    assert_eq!(r0.get("id"), Some(&AxonValue::Integer(1)));
    assert_eq!(r0.get("name"), Some(&AxonValue::String("Alice".to_string())));
    assert_eq!(r0.get("active"), Some(&AxonValue::Boolean(true)));
    assert_eq!(r0.get("age"), Some(&AxonValue::Integer(28)));
    let r1 = &block.rows[1];
    assert_eq!(r1.get("id"), Some(&AxonValue::Integer(2)));
    assert_eq!(r1.get("name"), Some(&AxonValue::String("Bob".to_string())));
    assert_eq!(r1.get("active"), Some(&AxonValue::Boolean(false)));
    assert_eq!(r1.get("age"), Some(&AxonValue::Null));
}

#[test]
fn unknown_type_code_is_fatal() {
    let doc = "@schema User\nid:Q\n@end\n";
    assert_eq!(parse(doc), Err(ParseError::UnknownTypeCode('Q')));
}

#[test]
fn empty_type_spec_is_fatal() {
    let doc = "@schema User\nid:\n@end\n";
    assert_eq!(parse(doc), Err(ParseError::EmptyTypeSpec("id".to_string())));
}

#[test]
fn nullable_marker_alone_is_fatal() {
    let doc = "@schema User\nid:?\n@end\n";
    assert_eq!(parse(doc), Err(ParseError::EmptyTypeSpec("id".to_string())));
}

#[test]
fn invalid_data_header_is_fatal() {
    let doc = "@schema User\nid:I\n@end\n@data User\n@end\n";
    assert_eq!(
        parse(doc),
        Err(ParseError::InvalidDataHeader("@data User".to_string()))
    );
}

#[test]
fn schema_not_found_is_fatal() {
    let doc = "@data User[1]\n1\n@end\n";
    assert_eq!(parse(doc), Err(ParseError::SchemaNotFound("User".to_string())));
}

#[test]
fn data_block_sees_only_earlier_schemas() {
    let doc = "@data User[1]\n1\n@end\n@schema User\nid:I\n@end\n";
    assert_eq!(parse(doc), Err(ParseError::SchemaNotFound("User".to_string())));
}

#[test]
fn invalid_integer_is_fatal_and_names_the_field() {
    let doc = "@schema User\nid:I\n@end\n@data User[1]\nabc\n@end\n";
    assert_eq!(
        parse(doc),
        Err(ParseError::InvalidInteger("abc".to_string(), "id".to_string()))
    );
}

#[test]
fn invalid_float_is_fatal_and_names_the_field() {
    let doc = "@schema M\nx:F\n@end\n@data M[1]\n1..2\n@end\n";
    assert_eq!(
        parse(doc),
        Err(ParseError::InvalidFloat("1..2".to_string(), "x".to_string()))
    );
}

#[test]
fn integer_bounds() {
    let t = AxonType::Integer;
    assert_eq!(
        parse_value("9223372036854775807", &t),
        Ok(AxonValue::Integer(i64::MAX))
    );
    assert_eq!(
        parse_value("-9223372036854775808", &t),
        Ok(AxonValue::Integer(i64::MIN))
    );
    assert_eq!(parse_value("+42", &t), Ok(AxonValue::Integer(42)));
    assert!(parse_value("9223372036854775808", &t).is_err());
    assert!(parse_value("", &t).is_err());
    assert!(parse_value("-", &t).is_err());
    assert!(parse_value("1 2", &t).is_err());
}

#[test]
fn boolean_is_total() {
    let t = AxonType::Boolean;
    assert_eq!(parse_value("1", &t), Ok(AxonValue::Boolean(true)));
    assert_eq!(parse_value("0", &t), Ok(AxonValue::Boolean(false)));
    assert_eq!(parse_value("", &t), Ok(AxonValue::Boolean(false)));
    assert_eq!(parse_value("true", &t), Ok(AxonValue::Boolean(false)));
}

#[test]
fn float_grammar_accepts_and_rejects() {
    let t = AxonType::Float;
    for ok in ["3.14", "-2.5", "inf", "Infinity", "-INF", "NaN", "1e10", "2E-3", ".5", "5.", "1.e2", "+0.25"] {
        assert_eq!(
            parse_value(ok, &t),
            Ok(AxonValue::Float(ok.to_string())),
            "expected accept: {ok}"
        );
    }
    for bad in ["", ".", "1e", "e5", "--1", "0x1", "1..2", "in", "nanx"] {
        assert!(parse_value(bad, &t).is_err(), "expected reject: {bad}");
    }
}

#[test]
fn timestamp_is_kept_verbatim() {
    let t = AxonType::Timestamp;
    assert_eq!(
        parse_value("2024-13-99T99:99:99Z", &t),
        Ok(AxonValue::Timestamp("2024-13-99T99:99:99Z".to_string()))
    );
}

#[test]
fn string_value_is_unescaped() {
    let t = AxonType::String;
    assert_eq!(
        parse_value("a\\tb", &t),
        Ok(AxonValue::String("a\tb".to_string()))
    );
}

#[test]
fn schema_field_count_matches_candidate_lines() {
    let lines: Vec<String> = ["@schema S", "a:I", "", "no colon here", "b:S?", "c:I:comment", "@end"]
        .iter()
        .map(|s| s.to_string())
        .collect();
    let (schema, next) = parse_schema(&lines, 0).unwrap();
    // three colon-containing body lines, so exactly three fields
    assert_eq!(schema.fields.len(), 3);
    assert_eq!(schema.fields[0].name, "a");
    assert_eq!(schema.fields[1].name, "b");
    assert!(schema.fields[1].is_nullable);
    assert_eq!(schema.fields[2].name, "c");
    assert_eq!(schema.fields[2].field_type, AxonType::Integer);
    assert_eq!(next, 7);
}

#[test]
fn field_line_splits_at_first_colon() {
    // the type annotation is everything after the first colon
    let result = parse("@schema U\na:S:x\n@end\n").unwrap();
    let schema = &result.schemas[0];
    assert_eq!(schema.fields.len(), 1);
    assert_eq!(schema.fields[0].name, "a");
    assert_eq!(schema.fields[0].field_type, AxonType::String);
}

#[test]
fn double_colon_is_an_unknown_type_code() {
    assert_eq!(
        parse("@schema U\na::\n@end\n"),
        Err(ParseError::UnknownTypeCode(':'))
    );
}

#[test]
fn unterminated_schema_block_is_not_an_error() {
    let doc = "@schema User\nid:I\nname:S\n";
    let result = parse(doc).unwrap();
    assert_eq!(result.schemas.len(), 1);
    assert_eq!(result.schemas[0].fields.len(), 2);
}

#[test]
fn unrecognized_top_level_lines_are_skipped() {
    let doc = "junk\n\n# comment\n@schema U\nid:I\n@end\nmore junk\n";
    let result = parse(doc).unwrap();
    assert_eq!(result.schemas.len(), 1);
    assert_eq!(result.data_blocks.len(), 0);
}

#[test]
fn schema_name_may_be_empty() {
    let result = parse("@schema\nid:I\n@end\n").unwrap();
    assert_eq!(result.schemas[0].name, "");
}

#[test]
fn data_header_is_whitespace_tolerant() {
    let doc = "@schema U\nid:I\n@end\n@data \t  U[3]\n1\n@end\n";
    let result = parse(doc).unwrap();
    assert_eq!(result.data_blocks[0].count, 3);
}

#[test]
fn data_header_count_overflow_is_invalid() {
    let lines: Vec<String> = ["@data U[99999999999999999999999]", "@end"]
        .iter()
        .map(|s| s.to_string())
        .collect();
    let schemas = vec![user_schema()];
    assert_eq!(
        parse_data_block(&lines, 0, &schemas),
        Err(ParseError::InvalidDataHeader(
            "@data U[99999999999999999999999]".to_string()
        ))
    );
}

#[test]
fn data_header_trailing_text_is_ignored() {
    let lines: Vec<String> = ["@data User[2] trailing", "1|x", "@end"]
        .iter()
        .map(|s| s.to_string())
        .collect();
    let schemas = vec![user_schema()];
    let (block, next) = parse_data_block(&lines, 0, &schemas).unwrap();
    assert_eq!(block.schema_name, "User");
    assert_eq!(block.count, 2);
    assert_eq!(block.rows.len(), 1);
    assert_eq!(next, 3);
}

#[test]
fn blank_lines_inside_blocks_are_skipped() {
    let doc = "@schema U\n\nid:I\n\n@end\n@data U[1]\n\n4\n\n@end\n";
    let result = parse(doc).unwrap();
    assert_eq!(result.schemas[0].fields.len(), 1);
    assert_eq!(result.data_blocks[0].rows.len(), 1);
}

#[test]
fn row_failure_aborts_whole_parse() {
    let doc = "@schema U\nid:I\n@end\n@data U[2]\n1\nbad\n@end\n";
    assert!(parse(doc).is_err());
}

#[test]
fn type_code_uses_first_character_only() {
    // the annotation `Sx` resolves by its first character
    let result = parse("@schema U\nname:Sx\n@end\n").unwrap();
    assert_eq!(result.schemas[0].fields[0].field_type, AxonType::String);
}

#[test]
fn carriage_returns_are_trimmed_away() {
    let doc = "@schema U\r\nid:I\r\n@end\r\n@data U[1]\r\n9\r\n@end\r\n";
    let result = parse(doc).unwrap();
    assert_eq!(result.schemas[0].fields.len(), 1);
    assert_eq!(result.data_blocks[0].rows[0].get("id"), Some(&AxonValue::Integer(9)));
}

#[test]
fn parse_schema_trims_untrimmed_lines() {
    let lines: Vec<String> = ["  @schema  Foo  ", "  a : I  ", "  @end  "]
        .iter()
        .map(|s| s.to_string())
        .collect();
    let (schema, next) = parse_schema(&lines, 0).unwrap();
    assert_eq!(schema.name, "Foo");
    assert_eq!(schema.fields[0].name, "a");
    assert_eq!(schema.fields[0].field_type, AxonType::Integer);
    assert_eq!(next, 3);
}

#[test]
fn duplicate_field_name_keeps_one_entry_with_later_value() {
    let schema = Schema {
        name: "D".to_string(),
        fields: vec![
            FieldDefinition {
                name: "v".to_string(),
                field_type: AxonType::Integer,
                is_nullable: false,
            },
            FieldDefinition {
                name: "v".to_string(),
                field_type: AxonType::String,
                is_nullable: false,
            },
        ],
    };
    let row = parse_row("1|x", &schema).unwrap();
    // keys are unique within a row: the later binding replaces the earlier
    assert_eq!(row.entries.len(), 1);
    assert_eq!(row.get("v"), Some(&AxonValue::String("x".to_string())));
}

#[test]
fn data_header_name_may_be_non_ascii() {
    let doc = "@schema café\nid:I\n@end\n@data café[1]\n7\n@end\n";
    let result = parse(doc).unwrap();
    assert_eq!(result.data_blocks[0].schema_name, "café");
    assert_eq!(result.data_blocks[0].rows[0].get("id"), Some(&AxonValue::Integer(7)));
}
