use asm6502::assemble;
use asm6502::encode::{address_to_string, tokens_to_machine_code, ByteToken, MachineCode};
use asm6502::literal::{address_size, u16_decode, u8_decode, AddressSize, HexPair};
use asm6502::opcodes::{find_mnemonic, format_opcode};
use asm6502::render::{branch_byte, machine_code_to_str, rom_image};
use asm6502::tokenize::{create_symbols_and_tokenize, AsmError, Label, TokenLine};

fn chars(s: &str) -> Vec<char> {
    s.chars().collect()
}

fn hex(source: &str) -> String {
    assemble(source, false).expect("source assembles")
}

#[test]
fn one_byte_forms_decode_alike() {
    for s in ["$2A", "%00101010", "42"] {
        let c = chars(s);
        assert_eq!(address_size(&c), AddressSize::U8, "{}", s);
        assert_eq!(u8_decode(&c), Some(HexPair { lower: 0x2A, upper: 0 }), "{}", s);
    }
}

#[test]
fn octal_one_byte() {
    let c = chars("0052");
    assert_eq!(address_size(&c), AddressSize::U8);
    assert_eq!(u8_decode(&c), Some(HexPair { lower: 0x2A, upper: 0 }));
    assert_eq!(u8_decode(&chars("0777")), None);
}

#[test]
fn two_byte_forms_split_into_bytes() {
    for s in ["$1234", "%0001001000110100", "0011064"] {
        let c = chars(s);
        assert_eq!(address_size(&c), AddressSize::U16, "{}", s);
        let p = u16_decode(&c).unwrap();
        assert_eq!(p, HexPair { lower: 0x34, upper: 0x12 }, "{}", s);
        assert_eq!(p.upper as u32 * 256 + p.lower as u32, 0x1234);
    }
}

#[test]
fn decimal_two_byte_splits_by_sixteen() {
    let c = chars("300");
    assert_eq!(address_size(&c), AddressSize::U16);
    assert_eq!(u16_decode(&c), Some(HexPair { lower: 12, upper: 18 }));
}

#[test]
fn literal_widths() {
    assert_eq!(address_size(&chars("255")), AddressSize::U8);
    assert_eq!(address_size(&chars("256")), AddressSize::U16);
    assert_eq!(address_size(&chars("0")), AddressSize::Unknown);
    assert_eq!(address_size(&chars("$123")), AddressSize::Unknown);
    assert_eq!(address_size(&chars("FOO")), AddressSize::Unknown);
    assert_eq!(address_size(&chars("")), AddressSize::Unknown);
}

#[test]
fn malformed_literals_decode_to_none() {
    assert_eq!(u8_decode(&chars("$ZZ")), None);
    assert_eq!(u8_decode(&chars("%00000002")), None);
    assert_eq!(u8_decode(&chars("256")), None);
    assert_eq!(u16_decode(&chars("$12G4")), None);
    assert_eq!(u16_decode(&chars("0777777")), None);
    assert_eq!(u16_decode(&chars("$FFFF")), Some(HexPair { lower: 0xFF, upper: 0xFF }));
}

#[test]
fn opcode_table_lookups() {
    assert_eq!(find_mnemonic(&chars("LDA")), Some(29));
    assert_eq!(find_mnemonic(&chars("FOO")), None);
    assert_eq!(format_opcode(29, 2), Some(0xA9));
    assert_eq!(format_opcode(27, 9), Some(0x6C));
    assert_eq!(format_opcode(29, 0), None);
    assert_eq!(format_opcode(56, 0), None);
    assert_eq!(format_opcode(0, 13), None);
}

#[test]
fn end_to_end_jump_back_to_start() {
    let src = "START: LDA #$01\n       STA $00\n       JMP START";
    assert_eq!(hex(src), "A9 01 85 00 4C 00 00 ");
    let (tokens, labels, defines) = create_symbols_and_tokenize(src).unwrap();
    let (_, resolved) = tokens_to_machine_code(&tokens, &labels, &defines).unwrap();
    assert_eq!(resolved.len(), 1);
    assert_eq!(resolved[0].name, chars("START"));
    assert_eq!(resolved[0].address, 0x0000);
}

#[test]
fn end_to_end_branch_loop_at_origin() {
    let out = hex("* = $0600\nLOOP: DEX\n      BNE LOOP");
    assert_eq!(out, "* = CA D0 FD ");
}

#[test]
fn backward_branch_displacement() {
    assert_eq!(hex("LOOP: DEX\nBNE LOOP"), "CA D0 FD ");
    assert_eq!(hex("LOOP: NOP\nNOP\nBEQ LOOP"), "EA EA F0 FC ");
}

#[test]
fn forward_branch_displacement() {
    assert_eq!(hex("BNE DONE\nNOP\nDONE: RTS"), "D0 01 EA 60 ");
}

#[test]
fn branch_byte_formula() {
    assert_eq!(branch_byte(0, 2), 0xFD);
    assert_eq!(branch_byte(5, 5), 0);
    assert_eq!(branch_byte(10, 2), 7);
    assert_eq!(branch_byte(0x0600, 2), 0xFD);
}

#[test]
fn jump_forward_and_backward_render_two_bytes() {
    assert_eq!(hex("JMP END\nNOP\nEND: RTS"), "4C 04 00 EA 60 ");
    assert_eq!(hex("START: NOP\nJSR START"), "EA 20 00 00 ");
}

#[test]
fn jump_address_is_split_by_255() {
    assert_eq!(hex("* = $012C\nL: NOP\nJMP L"), "* = EA 4C 2D 01 ");
}

#[test]
fn origin_sets_label_address() {
    let src = "NOP\n* = $0600\nSTART: NOP\nJMP START";
    assert_eq!(hex(src), "EA * = EA 4C 06 06 ");
    let (tokens, labels, defines) = create_symbols_and_tokenize(src).unwrap();
    assert!(matches!(tokens[1], TokenLine::Origin(0x0600)));
    let (_, resolved) = tokens_to_machine_code(&tokens, &labels, &defines).unwrap();
    assert_eq!(resolved[0].address, 0x0600);
}

#[test]
fn org_keyword_sets_origin() {
    let src = "ORG $0300\nHERE: NOP\nJMP HERE";
    let (tokens, labels, defines) = create_symbols_and_tokenize(src).unwrap();
    assert!(matches!(tokens[0], TokenLine::Origin(0x0300)));
    let (_, resolved) = tokens_to_machine_code(&tokens, &labels, &defines).unwrap();
    assert_eq!(resolved[0].address, 0x0300);
}

#[test]
fn unknown_mnemonic_fails() {
    assert_eq!(assemble("FOO #$01", false), Err(AsmError::UnknownOpcode));
    assert_eq!(assemble("NOP\nFOO #$01", true), Err(AsmError::UnknownOpcode));
}

#[test]
fn malformed_define_fails() {
    assert_eq!(assemble("X = $ZZ\nNOP", false), Err(AsmError::MalformedLiteral));
    assert_eq!(assemble("X = 00\nNOP", false), Err(AsmError::MalformedLiteral));
}

#[test]
fn missing_mode_fails() {
    assert_eq!(assemble("LDA", false), Err(AsmError::UnknownAddressingPattern));
    assert_eq!(assemble("STA #$01", false), Err(AsmError::UnknownAddressingPattern));
    assert_eq!(assemble("LDA ($10", false), Err(AsmError::UnknownAddressingPattern));
    assert_eq!(assemble("LDA #1 X", false), Err(AsmError::UnknownAddressingPattern));
}

#[test]
fn ambiguous_width_fails() {
    assert_eq!(assemble("LDA #0", false), Err(AsmError::AmbiguousOperandWidth));
    assert_eq!(assemble("LDA UNDEFINED", false), Err(AsmError::AmbiguousOperandWidth));
}

#[test]
fn addressing_modes() {
    assert_eq!(hex("LDA $10,X"), "B5 10 ");
    assert_eq!(hex("LDA $1234,X"), "BD 34 12 ");
    assert_eq!(hex("LDA $1234,Y"), "B9 34 12 ");
    assert_eq!(hex("LDX $10,Y"), "B6 10 ");
    assert_eq!(hex("LDA ($10,X)"), "A1 10 ");
    assert_eq!(hex("LDA ($10),Y"), "B1 10 ");
    assert_eq!(hex("JMP ($1234)"), "6C 34 12 ");
    assert_eq!(hex("ASL A"), "0A ");
    assert_eq!(hex("LDA $1234"), "AD 34 12 ");
    assert_eq!(hex("JMP $12"), "4C 12 00 ");
}

#[test]
fn constants_and_selectors() {
    assert_eq!(hex("VAL = $1234\nLDA #<VAL\nLDX #>VAL"), "A9 34 A2 12 ");
    assert_eq!(hex("ZP = $10\nSTA ZP"), "85 10 ");
    assert_eq!(hex("ADDR = $1234\nSTA ADDR"), "8D 34 12 ");
}

#[test]
fn comments_and_blank_lines() {
    assert_eq!(hex("; a comment\n\n   NOP ; trailing\n"), "EA ");
}

#[test]
fn standalone_labels_bind_to_next_statement() {
    let src = "A1:\nA2:\nNOP\nJMP A1";
    let (tokens, labels, defines) = create_symbols_and_tokenize(src).unwrap();
    assert_eq!(tokens.len(), 2);
    assert_eq!(labels.len(), 2);
    assert_eq!(labels[0].line, 0);
    assert_eq!(labels[1].line, 0);
    assert_eq!(hex(src), "EA 4C 00 00 ");
    let _ = defines;
}

#[test]
fn debug_listing() {
    let out = assemble("VAL = $1234\nSTART: LDA #$01", true).unwrap();
    let mut expected = format!("     {:<06} =   ${:<02X}{:<02X}\n", "VAL", 0x12, 0x34);
    expected.push_str(&format!("{:<04X} {:<06} {:<03} {:<012} ", 0, "START", "LDA", "#$01"));
    expected.push_str("A9 01 \n");
    assert_eq!(out, expected);
}

#[test]
fn machine_code_builders() {
    let mut mc = MachineCode::new(0);
    mc.insert_byte(0, ByteToken::Byte(0xEA));
    mc.insert_byte(0, ByteToken::Byte(0x01));
    mc.insert_byte(1, ByteToken::Byte(0x60));
    mc.insert_debug_info(0, chars("first"));
    assert_eq!(mc.binary_data.len(), 2);
    assert_eq!(mc.binary_data[0], vec![ByteToken::Byte(0xEA), ByteToken::Byte(0x01)]);
    assert_eq!(mc.debug_info[0], chars("first"));
    assert_eq!(machine_code_to_str(&mc, &Vec::new(), false), "EA 01 60 ");
}

#[test]
fn operand_bytes_of_address() {
    let (_, labels, defines) = create_symbols_and_tokenize("K = $1234\nL: NOP").unwrap();
    assert_eq!(address_to_string(&chars("L"), &labels, &defines), Ok(vec![ByteToken::LabelRef(0)]));
    assert_eq!(
        address_to_string(&chars("K"), &labels, &defines),
        Ok(vec![ByteToken::Byte(0x34), ByteToken::Byte(0x12)])
    );
    assert_eq!(address_to_string(&chars(">K"), &labels, &defines), Ok(vec![ByteToken::Byte(0x12)]));
    assert_eq!(address_to_string(&chars("$05"), &labels, &defines), Ok(vec![ByteToken::Byte(0x05)]));
    assert_eq!(address_to_string(&chars("$G5"), &labels, &defines), Err(AsmError::MalformedLiteral));
}

#[test]
fn rom_image_bytes() {
    let rom = rom_image("A9 01 ").unwrap();
    let mut expected = b"6502ROM...".to_vec();
    expected.extend_from_slice(&[0xA9, 0x01]);
    assert_eq!(rom, expected);
    assert_eq!(rom_image("* = EA "), None);
}

#[test]
fn unicode_whitespace_separates_words() {
    assert_eq!(hex("LDA\u{00A0}#$01\r\n\tNOP"), "A9 01 EA ");
}

#[test]
fn lone_word_without_colon_is_a_label_without_statement() {
    assert_eq!(assemble("FOO", false), Err(AsmError::UnknownOpcode));
}

#[test]
fn byte_after_jump_reference_stays_separate() {
    let mut mc = MachineCode::new(0);
    mc.insert_byte(0, ByteToken::Byte(0x4C));
    mc.insert_byte(0, ByteToken::LabelRef(0));
    mc.insert_byte(0, ByteToken::Byte(0xEA));
    let labels = vec![Label { name: chars("L"), line: 0, address: 0 }];
    assert_eq!(machine_code_to_str(&mc, &labels, false), "4C 00 00 EA ");
}

#[test]
fn every_byte_in_every_one_byte_form() {
    for n in 0..=255u8 {
        let expected = Some(HexPair { lower: n, upper: 0 });
        for s in [format!("${:02X}", n), format!("%{:08b}", n), format!("0{:03o}", n), n.to_string()] {
            assert_eq!(u8_decode(&chars(&s)), expected, "{}", s);
        }
    }
}

#[test]
fn words_in_every_two_byte_form() {
    let mut a: u32 = 0;
    while a <= 0xFFFF {
        for s in [format!("${:04X}", a), format!("%{:016b}", a), format!("0{:06o}", a)] {
            let h = u16_decode(&chars(&s)).unwrap();
            assert_eq!(h.upper as u32 * 256 + h.lower as u32, a, "{}", s);
        }
        a += 257;
    }
}

#[test]
fn labels_after_origin_add_statement_sizes() {
    let src = "NOP\n* = $0600\nA: LDA #$01\nB: STA $1234\nC: NOP";
    let (tokens, labels, defines) = create_symbols_and_tokenize(src).unwrap();
    let (_, resolved) = tokens_to_machine_code(&tokens, &labels, &defines).unwrap();
    assert_eq!(resolved[0].address, 0x0600);
    assert_eq!(resolved[1].address, 0x0602);
    assert_eq!(resolved[2].address, 0x0605);
}

#[test]
fn unknown_mnemonic_later_in_program_fails() {
    assert_eq!(assemble("LDA #$01\nSTA $00\nXYZ $10\nNOP", false), Err(AsmError::UnknownOpcode));
}
