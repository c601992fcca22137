use vstd::prelude::*;
use crate::errors::ParseError;
use crate::reloc::{apply_relocs, inst_model, op_matches, resolve_relocations};
use crate::rodata::{
    build_rodata_table, eligible_syms, entries_correspond, nodes_bytes_total, rodata_err_at,
    rodata_nodes_ok, rodata_pass_clean, total_size, RodataNode, SymbolTable,
};
use crate::textdec::{decode_text, decoded_model, spec_text_offsets, InstNode, TrailingOp};
use crate::view::{
    count_rodata, debug_indices, first_rodata, first_text, lemma_debug_indices,
    lemma_first_rodata, lemma_first_text, locate_sections, sec_is_debug, sec_is_rodata,
    sec_is_text, ObjectView, SectionRec, SymbolRec,
};

verus! {

/// One debug section carried through unchanged: its name and its raw byte
/// payload. The downstream emitter computes its final placement.
#[derive(Debug)]
pub struct DebugBlob {
    pub name: String,
    pub data: Vec<u8>,
}

/// The rebuilt symbolic program of one object file: the decoded (and
/// relocation-patched) instruction nodes, the read-only data nodes, the
/// two segment byte totals, and the debug blobs.
#[derive(Debug)]
pub struct Program {
    pub insts: Vec<InstNode>,
    pub rodata: Vec<RodataNode>,
    pub text_size: u64,
    pub rodata_size: u64,
    pub debug: Vec<DebugBlob>,
}

/// What a successful decode promises of the program it hands back, phase
/// by phase: the single rodata section's eligible symbols became the
/// rodata nodes and the recorded total; the text section decoded at the
/// offsets its opcode bytes dictate; the relocations rewrote exactly the
/// trailing operands that a pass over the relocation entries rewrites; and
/// the debug sections were carried over in order, unchanged.
pub open spec fn parse_ok(ss: Seq<SectionRec>, syms: Seq<SymbolRec>, p: Program) -> bool {
    &&& count_rodata(ss) <= 1
    &&& match first_rodata(ss) {
        Some(ri) => {
            let ro = ss[ri];
            &&& ro.data is Some
            &&& rodata_pass_clean(syms, ro.index, ro.data->Some_0@.len() as int)
            &&& rodata_nodes_ok(syms, ro.index, ro.data->Some_0@, p.rodata@)
            &&& p.rodata_size == total_size(eligible_syms(syms, ro.index))
            &&& p.rodata_size == nodes_bytes_total(p.rodata@, p.rodata@.len() as int)
        },
        None => p.rodata@.len() == 0 && p.rodata_size == 0,
    }
    &&& match first_text(ss) {
        Some(ti) => {
            let tx = ss[ti];
            let data = tx.data->Some_0@;
            &&& tx.data is Some
            &&& p.text_size == tx.size
            &&& spec_text_offsets(data, 0) matches Ok(offs) && {
                &&& p.insts@.len() == offs.len()
                &&& forall|j: int|
                    0 <= j < offs.len() ==> (#[trigger] p.insts@[j]).offset == offs[j]
            }
            &&& match first_rodata(ss) {
                Some(ri) => exists|entries: Seq<(u64, String)>|
                    {
                        &&& #[trigger] entries_correspond(syms, ss[ri].index, entries)
                        &&& apply_relocs(
                            decoded_model(data),
                            tx.relocations@,
                            syms,
                            ss[ri].index,
                            entries,
                        ) matches Ok(m) && m.len() == p.insts@.len() && forall|j: int|
                            0 <= j < m.len() ==> op_matches((#[trigger] p.insts@[j]).imm, m[j].1)
                    },
                None => {
                    &&& tx.relocations@.len() == 0
                    &&& inst_model(p.insts@) == decoded_model(data)
                },
            }
        },
        None => p.insts@.len() == 0 && p.text_size == 0,
    }
    &&& p.debug@.len() == debug_indices(ss).len()
    &&& forall|j: int|
        0 <= j < p.debug@.len() ==> ss[#[trigger] debug_indices(ss)[j]].data is Some
    &&& forall|j: int|
        0 <= j < p.debug@.len() ==> p.debug@[j].name@ == ss[#[trigger] debug_indices(ss)[
            j
        ]].name->Some_0@
    &&& forall|j: int|
        0 <= j < p.debug@.len() ==> p.debug@[j].data@ == ss[#[trigger] debug_indices(ss)[
            j
        ]].data->Some_0@
}

/// A data-read failure on the `j`-th debug section, every earlier debug
/// section having read cleanly.
pub open spec fn debug_err(ss: Seq<SectionRec>, e: ParseError) -> bool {
    exists|j: int|
        {
            &&& 0 <= j < debug_indices(ss).len()
            &&& ss[#[trigger] debug_indices(ss)[j]].data is None
            &&& forall|j2: int|
                0 <= j2 < j ==> ss[#[trigger] debug_indices(ss)[j2]].data is Some
            &&& (e matches ParseError::SectionDataUnreadable { name } && name@ == ss[debug_indices(
                ss,
            )[j]].name->Some_0@)
        }
}

/// The failures that can come out of the text phase or later, given
/// whether a rodata section (at position `ro` of `ss`) was found: an
/// unreadable text payload, an undecodable instruction, a failing
/// relocation pass, relocations with no rodata section to resolve them
/// against, or — when all of that went through — a debug read failure.
pub open spec fn text_or_later_err(
    ss: Seq<SectionRec>,
    syms: Seq<SymbolRec>,
    ro: Option<int>,
    e: ParseError,
) -> bool {
    match first_text(ss) {
        None => debug_err(ss, e),
        Some(ti) => {
            let tx = ss[ti];
            if tx.data is None {
                e matches ParseError::SectionDataUnreadable { name } && name@
                    == tx.name->Some_0@
            } else if spec_text_offsets(tx.data->Some_0@, 0) is Err {
                e matches ParseError::DecodeFailure { offset, detail } && offset
                    == spec_text_offsets(tx.data->Some_0@, 0)->Err_0
            } else {
                match ro {
                    Some(ri) => {
                        ||| exists|entries: Seq<(u64, String)>|
                            #[trigger] entries_correspond(syms, ss[ri].index, entries)
                                && apply_relocs(
                                decoded_model(tx.data->Some_0@),
                                tx.relocations@,
                                syms,
                                ss[ri].index,
                                entries,
                            ) == Err::<Seq<(u64, TrailingOp)>, ParseError>(e)
                        ||| ((exists|entries: Seq<(u64, String)>|
                            #[trigger] entries_correspond(syms, ss[ri].index, entries)
                                && apply_relocs(
                                decoded_model(tx.data->Some_0@),
                                tx.relocations@,
                                syms,
                                ss[ri].index,
                                entries,
                            ) is Ok) && debug_err(ss, e))
                    },
                    None => {
                        if tx.relocations@.len() > 0 {
                            e == ParseError::DanglingRelocations
                        } else {
                            debug_err(ss, e)
                        }
                    },
                }
            }
        },
    }
}

/// Exactly when a decode fails, and with which error: the phases fail in
/// their running order — configuration conflict, rodata payload and
/// symbol walk, text payload and instruction decode, relocation
/// resolution (or its dangling check), debug payload reads — and the
/// first failure wins.
pub open spec fn parse_err(ss: Seq<SectionRec>, syms: Seq<SymbolRec>, e: ParseError) -> bool {
    if count_rodata(ss) >= 2 {
        e == ParseError::MultipleRodataSections
    } else {
        match first_rodata(ss) {
            Some(ri) => {
                let ro = ss[ri];
                if ro.data is None {
                    e matches ParseError::SectionDataUnreadable { name } && name@
                        == ro.name->Some_0@
                } else if !rodata_pass_clean(syms, ro.index, ro.data->Some_0@.len() as int) {
                    exists|i: int|
                        rodata_err_at(syms, ro.index, ro.data->Some_0@.len() as int, i, e)
                } else {
                    text_or_later_err(ss, syms, Some(ri), e)
                }
            },
            None => text_or_later_err(ss, syms, None, e),
        }
    }
}

fn copy_bytes(src: &Vec<u8>) -> (r: Vec<u8>)
    ensures
        r@ == src@,
{
    let n = src.len();
    let mut out: Vec<u8> = Vec::new();
    let mut i: usize = 0;
    while i < n
        invariant
            0 <= i <= n,
            n == src@.len(),
            out@ == src@.take(i as int),
        decreases n - i,
    {
        out.push(src[i]);
        proof {
            assert(out@ =~= src@.take(i as int + 1));
        }
        i += 1;
    }
    proof {
        assert(src@.take(n as int) =~= src@);
    }
    out
}

/// Rebuilds the symbolic program of one object file: locates the rodata,
/// text and debug sections, builds the rodata nodes and the transient
/// address-to-label table, decodes the text section instruction by
/// instruction, resolves every relocation's implicit addend to a symbolic
/// label, and packages the nodes, the two segment totals and the debug
/// blobs. There is no partial success: the first failing phase aborts the
/// whole decode with its error.
#[verifier::loop_isolation(false)]
#[verifier::rlimit(100)]
pub fn parse_bytecode(view: &ObjectView) -> (r: Result<Program, ParseError>)
    ensures
        match r {
            Ok(p) => parse_ok(view.sections@, view.symbols@, p),
            Err(e) => parse_err(view.sections@, view.symbols@, e),
        },
{
    let ghost ss = view.sections@;
    let ghost syms = view.symbols@;
    let loc = match locate_sections(view) {
        Ok(l) => l,
        Err(e) => {
            return Err(e);
        },
    };
    proof {
        lemma_first_rodata(ss);
        lemma_first_text(ss);
        match loc.rodata {
            Some(i) => {
                match first_rodata(ss) {
                    Some(fi) => {
                        if fi < i as int {
                            assert(sec_is_rodata(ss[fi]));
                            assert(false);
                        }
                        if (i as int) < fi {
                            assert(sec_is_rodata(ss[i as int]));
                            assert(false);
                        }
                        assert(fi == i as int);
                    },
                    None => {
                        assert(sec_is_rodata(ss[i as int]));
                        assert(false);
                    },
                }
            },
            None => {
                match first_rodata(ss) {
                    Some(fi) => {
                        assert(sec_is_rodata(ss[fi]));
                        assert(false);
                    },
                    None => {},
                }
            },
        }
        match loc.text {
            Some(i) => {
                match first_text(ss) {
                    Some(fi) => {
                        if fi < i as int {
                            assert(sec_is_text(ss[fi]));
                            assert(false);
                        }
                        if (i as int) < fi {
                            assert(sec_is_text(ss[i as int]));
                            assert(false);
                        }
                        assert(fi == i as int);
                    },
                    None => {
                        assert(sec_is_text(ss[i as int]));
                        assert(false);
                    },
                }
            },
            None => {
                match first_text(ss) {
                    Some(fi) => {
                        assert(sec_is_text(ss[fi]));
                        assert(false);
                    },
                    None => {},
                }
            },
        }
    }
    let mut ro_nodes: Vec<RodataNode> = Vec::new();
    let mut table = SymbolTable { entries: Vec::new() };
    let mut ro_total: u64 = 0;
    let mut has_ro = false;
    let mut ro_index: u64 = 0;
    match loc.rodata {
        Some(ri) => {
            let sec = &view.sections[ri];
            let out = match build_rodata_table(&view.symbols, sec) {
                Ok(o) => o,
                Err(e) => {
                    return Err(e);
                },
            };
            ro_nodes = out.nodes;
            table = out.table;
            ro_total = out.total;
            has_ro = true;
            ro_index = sec.index;
        },
        None => {},
    }
    let mut insts: Vec<InstNode> = Vec::new();
    let mut text_size: u64 = 0;
    match loc.text {
        Some(ti) => {
            let sec = &view.sections[ti];
            let name: String = match &sec.name {
                Some(n) => n.clone(),
                None => {
                    proof {
                        assert(false);
                    }
                    String::new()
                },
            };
            let data: &Vec<u8> = match &sec.data {
                Some(d) => d,
                None => {
                    return Err(ParseError::SectionDataUnreadable { name });
                },
            };
            insts = match decode_text(data) {
                Ok(v) => v,
                Err(e) => {
                    return Err(e);
                },
            };
            proof {
                let offs = spec_text_offsets(data@, 0)->Ok_0;
                assert forall|q: int| 0 <= q < offs.len() implies inst_model(insts@)[q]
                    == decoded_model(data@)[q] by {
                    assert(insts@[q].offset == offs[q]);
                }
                assert(inst_model(insts@) =~= decoded_model(data@));
            }
            if has_ro {
                match resolve_relocations(
                    &mut insts,
                    &sec.relocations,
                    &view.symbols,
                    ro_index,
                    &table,
                ) {
                    Ok(_) => {},
                    Err(e) => {
                        proof {
                            let ri = first_rodata(ss)->Some_0;
                            assert(entries_correspond(syms, ss[ri].index, table.entries@));
                            assert(apply_relocs(
                                decoded_model(data@),
                                sec.relocations@,
                                syms,
                                ss[ri].index,
                                table.entries@,
                            ) == Err::<Seq<(u64, TrailingOp)>, ParseError>(e));
                        }
                        return Err(e);
                    },
                }
            } else if sec.relocations.len() > 0 {
                return Err(ParseError::DanglingRelocations);
            }
            text_size = sec.size;
        },
        None => {},
    }
    let mut debug: Vec<DebugBlob> = Vec::new();
    let nd = loc.debug.len();
    let mut j: usize = 0;
    proof {
        lemma_debug_indices(ss);
    }
    while j < nd
        invariant
            0 <= j <= nd,
            nd == loc.debug@.len(),
            ss == view.sections@,
            loc.debug@.map_values(|u: usize| u as int) == debug_indices(ss),
            forall|q: int|
                0 <= q < debug_indices(ss).len() ==> 0 <= #[trigger] debug_indices(ss)[q]
                    < ss.len() && sec_is_debug(ss[debug_indices(ss)[q]]),
            debug@.len() == j,
            forall|q: int| 0 <= q < j ==> ss[#[trigger] debug_indices(ss)[q]].data is Some,
            forall|q: int|
                0 <= q < j ==> debug@[q].name@ == ss[#[trigger] debug_indices(ss)[
                    q
                ]].name->Some_0@,
            forall|q: int|
                0 <= q < j ==> debug@[q].data@ == ss[#[trigger] debug_indices(ss)[
                    q
                ]].data->Some_0@,
        decreases nd - j,
    {
        let d = loc.debug[j];
        proof {
            assert(loc.debug@.map_values(|u: usize| u as int)[j as int] == d as int);
        }
        let sec = &view.sections[d];
        let name: String = match &sec.name {
            Some(n) => n.clone(),
            None => {
                proof {
                    assert(false);
                }
                String::new()
            },
        };
        match &sec.data {
            Some(payload) => {
                let bytes = copy_bytes(payload);
                let ghost old_debug = debug@;
                debug.push(DebugBlob { name, data: bytes });
                proof {
                    let jj = j as int;
                    assert(debug_indices(ss)[jj] == d as int);
                    assert forall|q: int| 0 <= q < jj + 1 implies ss[#[trigger] debug_indices(ss)[
                        q
                    ]].data is Some by {
                        if q == jj {
                            assert(ss[d as int].data is Some);
                        }
                    }
                    assert forall|q: int| 0 <= q < jj + 1 implies debug@[q].name@ == ss[#[trigger] debug_indices(
                        ss,
                    )[q]].name->Some_0@ by {
                        if q < jj {
                            assert(debug@[q] == old_debug[q]);
                        } else {
                            assert(debug@[q].name@ == ss[d as int].name->Some_0@);
                        }
                    }
                    assert forall|q: int| 0 <= q < jj + 1 implies debug@[q].data@ == ss[#[trigger] debug_indices(
                        ss,
                    )[q]].data->Some_0@ by {
                        if q < jj {
                            assert(debug@[q] == old_debug[q]);
                        } else {
                            assert(debug@[q].data@ == ss[d as int].data->Some_0@);
                        }
                    }
                }
            },
            None => {
                proof {
                    let jj = j as int;
                    assert(debug_indices(ss)[jj] == d as int);
                    assert(debug_err(ss, ParseError::SectionDataUnreadable { name: name })) by {
                        assert(0 <= jj < debug_indices(ss).len() && ss[debug_indices(ss)[jj]].data
                            is None && (forall|j2: int|
                            0 <= j2 < jj ==> ss[#[trigger] debug_indices(ss)[j2]].data is Some));
                    }
                }
                return Err(ParseError::SectionDataUnreadable { name });
            },
        }
        j += 1;
    }
    proof {
        match first_text(ss) {
            Some(ti) => {
                match first_rodata(ss) {
                    Some(ri) => {
                        let data = ss[ti].data->Some_0@;
                        let ap = apply_relocs(
                            decoded_model(data),
                            ss[ti].relocations@,
                            syms,
                            ss[ri].index,
                            table.entries@,
                        );
                        assert(entries_correspond(syms, ss[ri].index, table.entries@));
                        assert(ap is Ok);
                        assert(ap->Ok_0.len() == insts@.len());
                        assert(forall|q: int|
                            0 <= q < ap->Ok_0.len() ==> op_matches(
                                (#[trigger] insts@[q]).imm,
                                ap->Ok_0[q].1,
                            ));
                    },
                    None => {},
                }
            },
            None => {},
        }
    }
    Ok(Program { insts, rodata: ro_nodes, text_size, rodata_size: ro_total, debug })
}

} // verus!
