use stackvm::assembler::Assembler;
use stackvm::bytes::val_to_bytes;
use stackvm::errors::AsmError;
use stackvm::lexer::{Directive, LabelType, Lexer, Token};
use stackvm::opcode::{match_instruction, Opcode};

fn assemble(source: &str) -> Result<Vec<u8>, AsmError> {
    Assembler::new(source.to_string()).assemble()
}

// --------------------------------------------------------------------------
// Byte-level encoding
// --------------------------------------------------------------------------

#[test]
fn val_to_bytes_is_big_endian() {
    assert_eq!(val_to_bytes(999_999), vec![0x00, 0x0F, 0x42, 0x3F]);
}

#[test]
fn val_to_bytes_minus_one_is_all_ones() {
    assert_eq!(val_to_bytes(-1), vec![0xFF, 0xFF, 0xFF, 0xFF]);
}

// --------------------------------------------------------------------------
// Lexer and token shapes
// --------------------------------------------------------------------------

#[test]
fn classify_global_label() {
    match Token::from_string(".foo:") {
        Ok(Token::Label(LabelType::Global, name)) => assert_eq!(name, b".foo".to_vec()),
        other => panic!("unexpected token: {:?}", other),
    }
}

#[test]
fn classify_local_label() {
    match Token::from_string("'loop:") {
        Ok(Token::Label(LabelType::Local, name)) => assert_eq!(name, b"'loop".to_vec()),
        other => panic!("unexpected token: {:?}", other),
    }
}

#[test]
fn classify_references() {
    assert!(matches!(
        Token::from_string(".foo"),
        Ok(Token::Reference(LabelType::Global, n)) if n == b".foo".to_vec()
    ));
    assert!(matches!(
        Token::from_string("'x"),
        Ok(Token::Reference(LabelType::Local, n)) if n == b"'x".to_vec()
    ));
}

#[test]
fn classify_directives_fold_case() {
    assert!(matches!(Token::from_string("@code"), Ok(Token::Directive(Directive::Code))));
    assert!(matches!(Token::from_string("@DATA"), Ok(Token::Directive(Directive::Data))));
    assert!(matches!(Token::from_string("@space"), Ok(Token::Directive(Directive::Space))));
    assert!(matches!(Token::from_string("@bogus"), Err(AsmError::Directive(_))));
}

#[test]
fn classify_constants() {
    assert!(matches!(Token::from_string("42"), Ok(Token::Constant(42))));
    assert!(matches!(Token::from_string("-7"), Ok(Token::Constant(-7))));
    assert!(matches!(Token::from_string("-3.7"), Ok(Token::Constant(-3))));
    assert!(matches!(Token::from_string(".5"), Ok(Token::Reference(..))));
    assert!(matches!(Token::from_string("0.5"), Ok(Token::Constant(0))));
}

#[test]
fn classify_mnemonic_and_comment() {
    assert!(matches!(Token::from_string("add"), Ok(Token::Instruction(n)) if n == b"add".to_vec()));
    match Token::from_string(";; hello") {
        Ok(Token::Comment(text)) => assert_eq!(text, b"hello".to_vec()),
        other => panic!("unexpected token: {:?}", other),
    }
}

#[test]
fn classify_rejects_garbage() {
    assert!(matches!(Token::from_string("12a"), Err(AsmError::Lex(s)) if s == b"12a".to_vec()));
    assert!(matches!(Token::from_string("5."), Err(AsmError::Lex(_))));
}

#[test]
fn lexer_splits_on_spaces_newlines_and_comments() {
    let source = "@code\n._entry: const 5 ; trailing words\nhalt\n".to_string();
    let mut lexer = Lexer::new(&source);
    let toks = lexer.lex().expect("lexing failed");
    assert!(matches!(toks[0], Token::Directive(Directive::Code)));
    assert!(matches!(toks[1], Token::NewLine));
    assert!(matches!(&toks[2], Token::Label(LabelType::Global, n) if *n == b"._entry".to_vec()));
    assert!(matches!(&toks[3], Token::Instruction(n) if *n == b"const".to_vec()));
    assert!(matches!(toks[4], Token::Constant(5)));
    assert!(matches!(&toks[5], Token::Comment(t) if *t == b"trailing words".to_vec()));
    assert!(matches!(toks[6], Token::NewLine));
    assert!(matches!(&toks[7], Token::Instruction(n) if *n == b"halt".to_vec()));
    assert!(matches!(toks[8], Token::NewLine));
    assert!(matches!(toks[9], Token::Eof));
    assert_eq!(toks.len(), 10);
}

#[test]
fn next_valid_hands_out_spans() {
    let source = "  add 5\n; note\n".to_string();
    let mut lexer = Lexer::new(&source);
    assert_eq!(lexer.next_valid(), &b"add"[..]);
    assert_eq!(lexer.next_valid(), &b"5"[..]);
    assert_eq!(lexer.next_valid(), &b"\n"[..]);
    assert_eq!(lexer.next_valid(), &b"; note"[..]);
    assert_eq!(lexer.next_valid(), &b"\n"[..]);
    assert_eq!(lexer.next_valid(), &b""[..]);
}

// --------------------------------------------------------------------------
// The opcode table
// --------------------------------------------------------------------------

#[test]
fn opcode_table_rows() {
    let c = match_instruction(b"const").unwrap();
    assert_eq!((c.code, c.byte_count, c.lbl), (0x10, 4, false));
    let g = match_instruction(b"g_load").unwrap();
    assert_eq!((g.code, g.byte_count, g.lbl), (0x12, 4, true));
    let h = match_instruction(b"halt").unwrap();
    assert_eq!((h.code, h.byte_count, h.lbl), (0xF0, 0, false));
    assert!(match_instruction(b"bogus").is_none());
}

#[test]
fn opcode_table_folds_case() {
    let c = match_instruction(b"CONST").unwrap();
    assert_eq!(c.code, 0x10);
}

#[test]
fn opcode_from_value_round_trips() {
    assert!(Opcode::is_valid_code(0x40));
    assert!(matches!(Opcode::from_value(0x40), Opcode::Add));
    assert_eq!(Opcode::from_value(0x88).code(), 0x88);
    assert!(!Opcode::is_valid_code(0x13));
}

// --------------------------------------------------------------------------
// Whole-image assembly
// --------------------------------------------------------------------------

#[test]
fn assembles_expected_image() {
    let img = assemble("@code\n._entry:\nconst 5\nconst 7\nadd\nprint\nhalt\n").unwrap();
    assert_eq!(
        img,
        vec![
            0x88, 0x00, 0x00, 0x00, 0x06, 0x00, // jmp ._entry, pad
            0x10, 0x00, 0x00, 0x00, 0x05, // const 5
            0x10, 0x00, 0x00, 0x00, 0x07, // const 7
            0x40, 0xE0, 0xF0, // add, print, halt
        ]
    );
}

#[test]
fn preamble_points_at_entry_after_data() {
    // One data word shifts the code region: ._entry lands at 10.
    let img = assemble("@data\n.x:\n3\n@code\n._entry:\nhalt\n").unwrap();
    assert_eq!(img[0], 0x88);
    assert_eq!(&img[1..5], &[0x00, 0x00, 0x00, 0x0A]);
    assert_eq!(img[5], 0x00);
    assert_eq!(&img[6..10], &[0x00, 0x00, 0x00, 0x03]);
    assert_eq!(img[10], 0xF0);
    assert_eq!(img.len(), 11);
}

#[test]
fn length_matches_token_weights() {
    // 6 preamble + 2 data words + (1+4) + (1+4) + 1 + 1 + 1 code bytes.
    let img = assemble("@data\n.x:\n3 4\n@code\n._entry:\nconst 1\ng_load .x\nadd\nprint\nhalt\n")
        .unwrap();
    assert_eq!(img.len(), 6 + 8 + 13);
}

#[test]
fn sections_are_packed_back_to_back() {
    // ._entry has 6 bytes, so .f starts right after it, at 12.
    let img = assemble("@code\n._entry:\njmp .f\nhalt\n.f:\nhalt\n").unwrap();
    assert_eq!(&img[1..5], &[0x00, 0x00, 0x00, 0x06]);
    assert_eq!(&img[7..11], &[0x00, 0x00, 0x00, 0x0C]);
    assert_eq!(img[12], 0xF0);
    assert_eq!(img.len(), 13);
}

#[test]
fn local_labels_resolve_within_their_section() {
    // Both sections define 'x; each reference resolves to its own.
    let img = assemble("@code\n._entry:\njmp 'x\n'x:\nhalt\n.g:\njmp 'x\n'x:\nhalt\n").unwrap();
    // ._entry at 6, its 'x at 6 + 5 = 11; .g at 12, its 'x at 12 + 5 = 17.
    assert_eq!(&img[7..11], &[0x00, 0x00, 0x00, 0x0B]);
    assert_eq!(&img[13..17], &[0x00, 0x00, 0x00, 0x11]);
    assert_eq!(img.len(), 18);
}

#[test]
fn directive_from_string_folds_case() {
    assert!(matches!(Directive::from_string("@code"), Ok(Directive::Code)));
    assert!(matches!(Directive::from_string("@Data"), Ok(Directive::Data)));
    assert!(matches!(Directive::from_string("@SPACE"), Ok(Directive::Space)));
    assert!(matches!(Directive::from_string("@heap"), Err(AsmError::Directive(_))));
}

#[test]
fn latest_binding_of_a_name_wins() {
    // Two sections share a name; references resolve to the later one.
    let img = assemble("@code\n._entry:\nhalt\n._entry:\nconst 1\nhalt\n").unwrap();
    assert_eq!(&img[1..5], &[0x00, 0x00, 0x00, 0x07]);
}

#[test]
fn assembling_twice_is_byte_identical() {
    let source = "@data\n.x:\n3\n@code\n._entry:\ng_load .x\nconst 4\nmul\nprint\nhalt\n";
    assert_eq!(assemble(source).unwrap(), assemble(source).unwrap());
}

#[test]
fn constants_truncate_to_32_bits() {
    let img = assemble("@code\n._entry:\nconst 4294967298\nhalt\n").unwrap();
    // 2^32 + 2 keeps only its low 32 bits.
    assert_eq!(&img[7..11], &[0x00, 0x00, 0x00, 0x02]);
}

// --------------------------------------------------------------------------
// Fatal diagnostics, one per kind
// --------------------------------------------------------------------------

#[test]
fn missing_entry_is_a_symbol_error() {
    match assemble("@code\n.start:\nhalt\n") {
        Err(AsmError::Symbol(name)) => assert_eq!(name, b"._entry".to_vec()),
        other => panic!("unexpected result: {:?}", other),
    }
}

#[test]
fn bad_span_is_a_lex_error() {
    assert!(matches!(
        assemble("@code\n._entry:\n$$$\nhalt\n"),
        Err(AsmError::Lex(s)) if s == b"$$$".to_vec()
    ));
}

#[test]
fn unknown_directive_is_a_directive_error() {
    assert!(matches!(
        assemble("@bogus\n@code\n._entry:\nhalt\n"),
        Err(AsmError::Directive(s)) if s == b"@bogus".to_vec()
    ));
}

#[test]
fn token_before_any_directive_is_a_directive_error() {
    assert!(matches!(
        assemble("noop\n@code\n._entry:\nhalt\n"),
        Err(AsmError::Directive(s)) if s == b"noop".to_vec()
    ));
}

#[test]
fn repeated_directive_is_a_directive_error() {
    assert!(matches!(
        assemble("@code\n._entry:\nhalt\n@code\n"),
        Err(AsmError::Directive(s)) if s == b"@code".to_vec()
    ));
}

#[test]
fn instruction_in_data_is_an_encoding_error() {
    assert!(matches!(
        assemble("@data\nnoop\n@code\n._entry:\nhalt\n"),
        Err(AsmError::Encoding(s)) if s == b"noop".to_vec()
    ));
}

#[test]
fn reference_in_data_is_an_encoding_error() {
    assert!(matches!(
        assemble("@data\n.x:\n.y\n@code\n._entry:\nhalt\n"),
        Err(AsmError::Encoding(s)) if s == b".y".to_vec()
    ));
}

#[test]
fn data_label_not_first_on_line_is_a_directive_error() {
    assert!(matches!(
        assemble("@data\n3 .x:\n@code\n._entry:\nhalt\n"),
        Err(AsmError::Directive(s)) if s == b".x".to_vec()
    ));
}

#[test]
fn unknown_mnemonic_is_an_encoding_error() {
    assert!(matches!(
        assemble("@code\n._entry:\nfrobnicate\nhalt\n"),
        Err(AsmError::Encoding(s)) if s == b"frobnicate".to_vec()
    ));
}

#[test]
fn unresolved_reference_is_a_symbol_error() {
    assert!(matches!(
        assemble("@code\n._entry:\njmp .nowhere\nhalt\n"),
        Err(AsmError::Symbol(s)) if s == b".nowhere".to_vec()
    ));
}

#[test]
fn unresolved_local_is_a_symbol_error() {
    assert!(matches!(
        assemble("@code\n._entry:\njmp 'gone\nhalt\n"),
        Err(AsmError::Symbol(s)) if s == b"'gone".to_vec()
    ));
}

#[test]
fn instruction_outside_global_scope_is_an_encoding_error() {
    assert!(matches!(
        assemble("@code\nhalt\n._entry:\nhalt\n"),
        Err(AsmError::Encoding(s)) if s == b"halt".to_vec()
    ));
}

#[test]
fn token_in_space_is_a_directive_error() {
    assert!(matches!(
        assemble("@space\n7\n@code\n._entry:\nhalt\n"),
        Err(AsmError::Directive(_))
    ));
}

#[test]
fn local_label_in_data_is_an_encoding_error() {
    assert!(matches!(
        assemble("@data\n'x:\n@code\n._entry:\nhalt\n"),
        Err(AsmError::Encoding(s)) if s == b"'x".to_vec()
    ));
}
