use sbpf_byteparser::{
    addend_of, build_rodata_table, decode_text, locate_sections, resolve_relocations,
    ObjectView, ParseError, RelocRec, SectionRec, SymbolRec, TrailingOp,
    LDDW_INSTRUCTION_SIZE, STANDARD_INSTRUCTION_SIZE, WIDE_LOAD_OPCODE,
};

fn sec(name: &str, index: u64, data: Option<Vec<u8>>) -> SectionRec {
    let size = data.as_ref().map(|d| d.len() as u64).unwrap_or(0);
    SectionRec {
        name: Some(name.to_string()),
        index,
        size,
        data,
        relocations: vec![],
    }
}

#[test]
fn locator_finds_each_kind() {
    let view = ObjectView {
        sections: vec![
            sec(".debug_info", 0, Some(vec![])),
            sec(".text", 1, Some(vec![])),
            sec(".rodata.str1.1", 2, Some(vec![])),
            sec(".debug_line", 3, Some(vec![])),
        ],
        symbols: vec![],
    };
    let loc = locate_sections(&view).unwrap();
    assert_eq!(loc.rodata, Some(2));
    assert_eq!(loc.text, Some(1));
    assert_eq!(loc.debug, vec![0, 3]);
}

#[test]
fn locator_rejects_second_rodata() {
    let view = ObjectView {
        sections: vec![
            sec(".rodata", 0, Some(vec![])),
            sec(".rodata.cst8", 1, Some(vec![])),
        ],
        symbols: vec![],
    };
    assert_eq!(
        locate_sections(&view).unwrap_err(),
        ParseError::MultipleRodataSections
    );
}

#[test]
fn rodata_builder_tables_eligible_symbols() {
    let ro = sec(".rodata", 4, Some(vec![7, 8, 9]));
    let symbols = vec![
        SymbolRec {
            name: Some("S".to_string()),
            address: 1,
            size: 2,
            section: Some(4),
        },
    ];
    let out = build_rodata_table(&symbols, &ro).unwrap();
    assert_eq!(out.total, 2);
    assert_eq!(out.nodes.len(), 1);
    assert_eq!(out.nodes[0].bytes, vec![8, 9]);
    assert_eq!(out.table.lookup(1).as_deref(), Some("S"));
    assert_eq!(out.table.lookup(0), None);
}

#[test]
fn decoder_widths_follow_the_opcode_byte() {
    assert_eq!(STANDARD_INSTRUCTION_SIZE, 8);
    assert_eq!(LDDW_INSTRUCTION_SIZE, 16);
    let mut text = vec![0u8; 16];
    text[0] = WIDE_LOAD_OPCODE;
    text[1] = 0x01;
    text.extend(vec![0x95, 0, 0, 0, 0, 0, 0, 0]);
    let nodes = decode_text(&text).unwrap();
    assert_eq!(nodes.len(), 2);
    assert_eq!(nodes[0].offset, 0);
    assert_eq!(nodes[0].imm, TrailingOp::Int(0));
    assert_eq!(nodes[1].offset, 16);
    assert_eq!(nodes[1].imm, TrailingOp::Missing);
}

#[test]
fn resolver_patches_in_place() {
    let mut text = vec![0u8; 16];
    text[0] = WIDE_LOAD_OPCODE;
    text[1] = 0x01;
    let mut nodes = decode_text(&text).unwrap();
    let ro = sec(".rodata", 4, Some(vec![1, 2]));
    let symbols = vec![SymbolRec {
        name: Some("MSG".to_string()),
        address: 0,
        size: 2,
        section: Some(4),
    }];
    let out = build_rodata_table(&symbols, &ro).unwrap();
    let relocs = vec![RelocRec { offset: 0, symbol: Some(0) }];
    resolve_relocations(&mut nodes, &relocs, &symbols, 4, &out.table).unwrap();
    assert_eq!(nodes[0].imm, TrailingOp::Name("MSG".to_string()));
}

#[test]
fn addend_reads_only_integer_immediates() {
    assert_eq!(addend_of(&TrailingOp::Int(-3)), -3);
    assert_eq!(addend_of(&TrailingOp::Addr(5)), 0);
    assert_eq!(addend_of(&TrailingOp::Name("L".to_string())), 0);
    assert_eq!(addend_of(&TrailingOp::Missing), 0);
}
