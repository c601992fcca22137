use sbpf_byteparser::{build_layout, parse_bytecode, ObjectView, RelocRec, SectionRec, SymbolRec};

fn sec(name: &str, index: u64, data: Option<Vec<u8>>, relocations: Vec<RelocRec>) -> SectionRec {
    let size = data.as_ref().map(|d| d.len() as u64).unwrap_or(0);
    SectionRec {
        name: Some(name.to_string()),
        index,
        size,
        data,
        relocations,
    }
}

fn lddw_inst(dst: u8, imm: i64) -> Vec<u8> {
    let mut b = vec![0u8; 16];
    b[0] = 0x18;
    b[1] = dst & 0x0f;
    let low = (imm as u32).to_le_bytes();
    let high = ((imm >> 32) as u32).to_le_bytes();
    b[4..8].copy_from_slice(&low);
    b[12..16].copy_from_slice(&high);
    b
}

#[test]
fn build_layout_packages_resolved_program() {
    let mut text = lddw_inst(1, 0);
    text.extend(vec![0x95, 0, 0, 0, 0, 0, 0, 0]);
    let view = ObjectView {
        sections: vec![
            sec(".rodata", 7, Some(vec![10, 20, 30, 40]), vec![]),
            sec(
                ".text",
                2,
                Some(text),
                vec![RelocRec { offset: 0, symbol: Some(0) }],
            ),
            sec(".debug_info", 4, Some(vec![1, 2]), vec![]),
        ],
        symbols: vec![SymbolRec {
            name: Some("MSG".to_string()),
            address: 0,
            size: 4,
            section: Some(7),
        }],
    };
    let p = parse_bytecode(&view).unwrap();
    let n_debug = p.debug.len();
    let layout = build_layout(p).expect("the downstream builder accepts the resolved program");
    assert_eq!(layout.debug_sections.len(), n_debug);
    assert_eq!(layout.debug_sections[0].name(), ".debug_info");
}

#[test]
fn build_layout_accepts_empty_program() {
    let view = ObjectView { sections: vec![], symbols: vec![] };
    let p = parse_bytecode(&view).unwrap();
    assert!(build_layout(p).is_ok());
}
