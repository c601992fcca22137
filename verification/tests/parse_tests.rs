use sbpf_byteparser::{
    parse_bytecode, ObjectView, ParseError, RelocRec, SectionRec, SymbolRec, TrailingOp,
};

fn sec(name: &str, index: u64, data: Option<Vec<u8>>, relocations: Vec<RelocRec>) -> SectionRec {
    let size = data.as_ref().map(|d| d.len() as u64).unwrap_or(0);
    SectionRec {
        name: Some(name.to_string()),
        index,
        size,
        data,
        relocations,
    }
}

fn sym(name: &str, address: u64, size: u64, section: Option<u64>) -> SymbolRec {
    SymbolRec {
        name: Some(name.to_string()),
        address,
        size,
        section,
    }
}

fn exit_inst() -> Vec<u8> {
    vec![0x95, 0, 0, 0, 0, 0, 0, 0]
}

fn lddw_inst(dst: u8, imm: i64) -> Vec<u8> {
    let mut b = vec![0u8; 16];
    b[0] = 0x18;
    b[1] = dst & 0x0f;
    let low = (imm as u32).to_le_bytes();
    let high = ((imm >> 32) as u32).to_le_bytes();
    b[4..8].copy_from_slice(&low);
    b[12..16].copy_from_slice(&high);
    b
}

#[test]
fn rodata_offsets_cumulative() {
    let view = ObjectView {
        sections: vec![sec(".rodata", 7, Some(vec![1, 2, 3, 4, 5, 6, 7]), vec![])],
        symbols: vec![
            sym("A", 0, 3, Some(7)),
            sym("B", 3, 4, Some(7)),
        ],
    };
    let p = parse_bytecode(&view).unwrap();
    assert_eq!(p.rodata.len(), 2);
    assert_eq!(p.rodata[0].name, "A");
    assert_eq!(p.rodata[0].offset, 0);
    assert_eq!(p.rodata[0].bytes, vec![1, 2, 3]);
    assert_eq!(p.rodata[1].name, "B");
    assert_eq!(p.rodata[1].offset, 3);
    assert_eq!(p.rodata[1].bytes, vec![4, 5, 6, 7]);
    assert_eq!(p.rodata_size, 7);
    assert_eq!(
        p.rodata_size,
        p.rodata.iter().map(|n| n.bytes.len() as u64).sum::<u64>()
    );
}

#[test]
fn rodata_skips_zero_size_and_foreign_symbols() {
    let view = ObjectView {
        sections: vec![sec(".rodata", 7, Some(vec![9, 9]), vec![])],
        symbols: vec![
            sym("marker", 0, 0, Some(7)),
            sym("other", 0, 2, Some(3)),
            sym("real", 0, 2, Some(7)),
        ],
    };
    let p = parse_bytecode(&view).unwrap();
    assert_eq!(p.rodata.len(), 1);
    assert_eq!(p.rodata[0].name, "real");
    assert_eq!(p.rodata_size, 2);
}

#[test]
fn standard_width_offsets() {
    let mut text = Vec::new();
    text.extend(exit_inst());
    text.extend(exit_inst());
    text.extend(exit_inst());
    let view = ObjectView {
        sections: vec![sec(".text", 2, Some(text), vec![])],
        symbols: vec![],
    };
    let p = parse_bytecode(&view).unwrap();
    assert_eq!(p.insts.len(), 3);
    let offsets: Vec<u64> = p.insts.iter().map(|n| n.offset).collect();
    assert_eq!(offsets, vec![0, 8, 16]);
    assert_eq!(p.text_size, 24);
}

#[test]
fn wide_insert_shifts_offsets() {
    let mut base = Vec::new();
    base.extend(exit_inst());
    base.extend(exit_inst());
    base.extend(exit_inst());
    let view_base = ObjectView {
        sections: vec![sec(".text", 2, Some(base), vec![])],
        symbols: vec![],
    };
    let p_base = parse_bytecode(&view_base).unwrap();
    let base_offsets: Vec<u64> = p_base.insts.iter().map(|n| n.offset).collect();
    assert_eq!(base_offsets, vec![0, 8, 16]);

    let mut wide = Vec::new();
    wide.extend(exit_inst());
    wide.extend(lddw_inst(1, 0));
    wide.extend(exit_inst());
    let view_wide = ObjectView {
        sections: vec![sec(".text", 2, Some(wide), vec![])],
        symbols: vec![],
    };
    let p_wide = parse_bytecode(&view_wide).unwrap();
    let wide_offsets: Vec<u64> = p_wide.insts.iter().map(|n| n.offset).collect();
    assert_eq!(wide_offsets, vec![0, 8, 24]);
    assert_eq!(wide_offsets[2] - base_offsets[2], 16 - 8);
}

#[test]
fn unmatched_addend_fails() {
    let view = ObjectView {
        sections: vec![
            sec(".rodata", 7, Some(vec![1, 2, 3, 4]), vec![]),
            sec(
                ".text",
                2,
                Some(lddw_inst(1, 5)),
                vec![RelocRec { offset: 0, symbol: Some(0) }],
            ),
        ],
        symbols: vec![sym("MSG", 0, 4, Some(7))],
    };
    let err = parse_bytecode(&view).unwrap_err();
    assert_eq!(err, ParseError::NoLabelForAddend { addend: 5 });
}

#[test]
fn two_rodata_sections_conflict() {
    // The text bytes here decode to nothing; the configuration conflict
    // must still win, before any instruction decoding.
    let view = ObjectView {
        sections: vec![
            sec(".rodata", 1, Some(vec![1]), vec![]),
            sec(".rodata.str1.1", 2, Some(vec![2]), vec![]),
            sec(".text", 3, Some(vec![0, 0, 0]), vec![]),
        ],
        symbols: vec![],
    };
    let err = parse_bytecode(&view).unwrap_err();
    assert_eq!(err, ParseError::MultipleRodataSections);
}

#[test]
fn relocations_without_rodata_fail() {
    let view = ObjectView {
        sections: vec![sec(
            ".text",
            2,
            Some(exit_inst()),
            vec![RelocRec { offset: 0, symbol: Some(0) }],
        )],
        symbols: vec![sym("X", 0, 4, Some(9))],
    };
    let err = parse_bytecode(&view).unwrap_err();
    assert_eq!(err, ParseError::DanglingRelocations);
}

#[test]
fn round_trip_label_patch() {
    let view = ObjectView {
        sections: vec![
            sec(".rodata", 7, Some(vec![10, 20, 30, 40]), vec![]),
            sec(
                ".text",
                2,
                Some(lddw_inst(1, 0)),
                vec![RelocRec { offset: 0, symbol: Some(0) }],
            ),
        ],
        symbols: vec![sym("MSG", 0, 4, Some(7))],
    };
    let p = parse_bytecode(&view).unwrap();
    assert_eq!(p.insts.len(), 1);
    assert_eq!(p.insts[0].offset, 0);
    assert_eq!(p.insts[0].imm, TrailingOp::Name("MSG".to_string()));
    assert_eq!(p.rodata.len(), 1);
    assert_eq!(p.rodata[0].name, "MSG");
}

#[test]
fn addend_selects_symbol_by_address() {
    let view = ObjectView {
        sections: vec![
            sec(".rodata", 7, Some(vec![1, 2, 3, 4]), vec![]),
            sec(
                ".text",
                2,
                Some(lddw_inst(1, 2)),
                vec![RelocRec { offset: 0, symbol: Some(0) }],
            ),
        ],
        symbols: vec![
            sym("A", 0, 2, Some(7)),
            sym("B", 2, 2, Some(7)),
        ],
    };
    let p = parse_bytecode(&view).unwrap();
    assert_eq!(p.insts[0].imm, TrailingOp::Name("B".to_string()));
}

#[test]
fn rodata_data_unreadable() {
    let view = ObjectView {
        sections: vec![sec(".rodata", 7, None, vec![])],
        symbols: vec![],
    };
    let err = parse_bytecode(&view).unwrap_err();
    assert_eq!(
        err,
        ParseError::SectionDataUnreadable { name: ".rodata".to_string() }
    );
}

#[test]
fn text_data_unreadable() {
    let view = ObjectView {
        sections: vec![sec(".text", 2, None, vec![])],
        symbols: vec![],
    };
    let err = parse_bytecode(&view).unwrap_err();
    assert_eq!(
        err,
        ParseError::SectionDataUnreadable { name: ".text".to_string() }
    );
}

#[test]
fn symbol_name_unreadable() {
    let view = ObjectView {
        sections: vec![sec(".rodata", 7, Some(vec![1, 2]), vec![])],
        symbols: vec![SymbolRec { name: None, address: 1, size: 1, section: Some(7) }],
    };
    let err = parse_bytecode(&view).unwrap_err();
    assert_eq!(err, ParseError::SymbolNameUnreadable { address: 1 });
}

#[test]
fn symbol_out_of_range() {
    let view = ObjectView {
        sections: vec![sec(".rodata", 7, Some(vec![1, 2, 3, 4, 5, 6, 7]), vec![])],
        symbols: vec![sym("BIG", 6, 4, Some(7))],
    };
    let err = parse_bytecode(&view).unwrap_err();
    assert_eq!(err, ParseError::SymbolOutOfRange { address: 6, size: 4 });
}

#[test]
fn decode_failure_bad_opcode() {
    let view = ObjectView {
        sections: vec![sec(".text", 2, Some(vec![0u8; 8]), vec![])],
        symbols: vec![],
    };
    let err = parse_bytecode(&view).unwrap_err();
    assert!(matches!(err, ParseError::DecodeFailure { offset: 0, .. }));
}

#[test]
fn decode_failure_truncated_tail() {
    let mut text = exit_inst();
    text.extend(vec![0x95, 0, 0, 0]);
    let view = ObjectView {
        sections: vec![sec(".text", 2, Some(text), vec![])],
        symbols: vec![],
    };
    let err = parse_bytecode(&view).unwrap_err();
    assert!(matches!(err, ParseError::DecodeFailure { offset: 8, .. }));
}

#[test]
fn unknown_symbol_index() {
    let view = ObjectView {
        sections: vec![
            sec(".rodata", 7, Some(vec![1]), vec![]),
            sec(
                ".text",
                2,
                Some(exit_inst()),
                vec![RelocRec { offset: 0, symbol: Some(7) }],
            ),
        ],
        symbols: vec![sym("A", 0, 1, Some(7))],
    };
    let err = parse_bytecode(&view).unwrap_err();
    assert_eq!(err, ParseError::UnknownSymbolIndex { index: 7 });
}

#[test]
fn no_instruction_at_offset() {
    let view = ObjectView {
        sections: vec![
            sec(".rodata", 7, Some(vec![1]), vec![]),
            sec(
                ".text",
                2,
                Some(exit_inst()),
                vec![RelocRec { offset: 4, symbol: Some(0) }],
            ),
        ],
        symbols: vec![sym("A", 0, 1, Some(7))],
    };
    let err = parse_bytecode(&view).unwrap_err();
    assert_eq!(err, ParseError::NoInstructionAtOffset { offset: 4 });
}

#[test]
fn non_symbol_relocation_skipped() {
    let view = ObjectView {
        sections: vec![
            sec(".rodata", 7, Some(vec![1, 2, 3, 4]), vec![]),
            sec(
                ".text",
                2,
                Some(lddw_inst(1, 0)),
                vec![RelocRec { offset: 0, symbol: None }],
            ),
        ],
        symbols: vec![sym("MSG", 0, 4, Some(7))],
    };
    let p = parse_bytecode(&view).unwrap();
    assert_eq!(p.insts[0].imm, TrailingOp::Int(0));
}

#[test]
fn foreign_section_relocation_skipped() {
    let view = ObjectView {
        sections: vec![
            sec(".rodata", 7, Some(vec![1, 2, 3, 4]), vec![]),
            sec(
                ".text",
                2,
                Some(lddw_inst(1, 0)),
                vec![RelocRec { offset: 0, symbol: Some(1) }],
            ),
        ],
        symbols: vec![
            sym("MSG", 0, 4, Some(7)),
            sym("ELSEWHERE", 0, 4, Some(99)),
        ],
    };
    let p = parse_bytecode(&view).unwrap();
    assert_eq!(p.insts[0].imm, TrailingOp::Int(0));
}

#[test]
fn non_integer_trailing_operand_gives_zero_addend() {
    // `exit` carries no immediate, so the implicit addend is zero; the
    // relocation then resolves through address 0 and still patches the
    // trailing operand.
    let view = ObjectView {
        sections: vec![
            sec(".rodata", 7, Some(vec![1, 2, 3, 4]), vec![]),
            sec(
                ".text",
                2,
                Some(exit_inst()),
                vec![RelocRec { offset: 0, symbol: Some(0) }],
            ),
        ],
        symbols: vec![sym("MSG", 0, 4, Some(7))],
    };
    let p = parse_bytecode(&view).unwrap();
    assert_eq!(p.insts[0].imm, TrailingOp::Name("MSG".to_string()));
}

#[test]
fn duplicate_address_last_registration_wins() {
    let view = ObjectView {
        sections: vec![
            sec(".rodata", 7, Some(vec![1, 2]), vec![]),
            sec(
                ".text",
                2,
                Some(lddw_inst(1, 0)),
                vec![RelocRec { offset: 0, symbol: Some(0) }],
            ),
        ],
        symbols: vec![
            sym("FIRST", 0, 2, Some(7)),
            sym("SECOND", 0, 2, Some(7)),
        ],
    };
    let p = parse_bytecode(&view).unwrap();
    assert_eq!(p.insts[0].imm, TrailingOp::Name("SECOND".to_string()));
}

#[test]
fn debug_sections_collected_in_order() {
    let view = ObjectView {
        sections: vec![
            sec(".debug_info", 4, Some(vec![1, 2, 3]), vec![]),
            sec(".text", 2, Some(exit_inst()), vec![]),
            sec(".debug_str", 5, Some(vec![9]), vec![]),
        ],
        symbols: vec![],
    };
    let p = parse_bytecode(&view).unwrap();
    assert_eq!(p.debug.len(), 2);
    assert_eq!(p.debug[0].name, ".debug_info");
    assert_eq!(p.debug[0].data, vec![1, 2, 3]);
    assert_eq!(p.debug[1].name, ".debug_str");
    assert_eq!(p.debug[1].data, vec![9]);
}

#[test]
fn debug_data_unreadable() {
    let view = ObjectView {
        sections: vec![sec(".debug_info", 4, None, vec![])],
        symbols: vec![],
    };
    let err = parse_bytecode(&view).unwrap_err();
    assert_eq!(
        err,
        ParseError::SectionDataUnreadable { name: ".debug_info".to_string() }
    );
}

#[test]
fn empty_object_parses_to_empty_program() {
    let view = ObjectView { sections: vec![], symbols: vec![] };
    let p = parse_bytecode(&view).unwrap();
    assert_eq!(p.insts.len(), 0);
    assert_eq!(p.rodata.len(), 0);
    assert_eq!(p.text_size, 0);
    assert_eq!(p.rodata_size, 0);
    assert_eq!(p.debug.len(), 0);
}

#[test]
fn unnamed_sections_are_ignored() {
    let view = ObjectView {
        sections: vec![SectionRec {
            name: None,
            index: 1,
            size: 3,
            data: Some(vec![0, 0, 0]),
            relocations: vec![],
        }],
        symbols: vec![],
    };
    let p = parse_bytecode(&view).unwrap();
    assert_eq!(p.insts.len(), 0);
    assert_eq!(p.rodata.len(), 0);
}
