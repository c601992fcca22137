use vstd::prelude::*;
use crate::errors::ParseError;
use crate::rodata::{SymbolTable, table_lookup};
use crate::textdec::{InstNode, TrailingOp};
use crate::view::{RelocRec, SymbolRec};

verus! {

/// The implicit addend of a relocation, recovered from the target
/// instruction's trailing operand: its value for an integer immediate,
/// zero for anything else.
pub open spec fn spec_addend(t: TrailingOp) -> i64 {
    match t {
        TrailingOp::Int(v) => v,
        _ => 0,
    }
}

/// The two trailing operands agree: equal immediates, or symbolic names
/// that spell the same characters.
pub open spec fn op_matches(a: TrailingOp, b: TrailingOp) -> bool {
    match (a, b) {
        (TrailingOp::Int(x), TrailingOp::Int(y)) => x == y,
        (TrailingOp::Addr(x), TrailingOp::Addr(y)) => x == y,
        (TrailingOp::Name(x), TrailingOp::Name(y)) => x@ == y@,
        (TrailingOp::Missing, TrailingOp::Missing) => true,
        _ => false,
    }
}

/// The (offset, trailing operand) model of a decoded instruction list.
pub open spec fn inst_model(s: Seq<InstNode>) -> Seq<(u64, TrailingOp)> {
    s.map_values(|n: InstNode| (n.offset, n.imm))
}

/// The first position whose instruction starts at byte offset `off`.
pub open spec fn find_inst(ns: Seq<(u64, TrailingOp)>, off: u64) -> Option<int>
    decreases ns.len(),
{
    if ns.len() == 0 {
        None
    } else if ns[0].0 == off {
        Some(0int)
    } else {
        match find_inst(ns.drop_first(), off) {
            Some(i) => Some(i + 1),
            None => None,
        }
    }
}

pub proof fn lemma_find_inst(ns: Seq<(u64, TrailingOp)>, off: u64)
    ensures
        match find_inst(ns, off) {
            Some(k) => 0 <= k < ns.len() && ns[k].0 == off && forall|j: int|
                0 <= j < k ==> (#[trigger] ns[j]).0 != off,
            None => forall|j: int| 0 <= j < ns.len() ==> (#[trigger] ns[j]).0 != off,
        },
    decreases ns.len(),
{
    if ns.len() > 0 && ns[0].0 != off {
        let d = ns.drop_first();
        lemma_find_inst(d, off);
        match find_inst(d, off) {
            Some(i) => {
                assert(ns[i + 1] == d[i]);
                assert forall|j: int| 0 <= j < i + 1 implies (#[trigger] ns[j]).0 != off by {
                    if j > 0 {
                        assert(d[j - 1] == ns[j]);
                    }
                }
            },
            None => {
                assert forall|j: int| 0 <= j < ns.len() implies (#[trigger] ns[j]).0 != off by {
                    if j > 0 {
                        assert(d[j - 1] == ns[j]);
                    }
                }
            },
        }
    }
}

/// What relocation resolution makes of the instruction models `ns`,
/// working through `relocs` in order. A relocation with a non-symbol
/// target, or whose symbol does not live in the rodata section, is
/// skipped. Otherwise the instruction at the relocation's offset must
/// exist, its trailing operand yields the implicit addend, the addend must
/// be a registered rodata address, and the operand is rewritten to the
/// registered label.
pub open spec fn apply_relocs(
    ns: Seq<(u64, TrailingOp)>,
    relocs: Seq<RelocRec>,
    symbols: Seq<SymbolRec>,
    ro_index: u64,
    table: Seq<(u64, String)>,
) -> Result<Seq<(u64, TrailingOp)>, ParseError>
    decreases relocs.len(),
{
    if relocs.len() == 0 {
        Ok(ns)
    } else {
        let rel = relocs[0];
        let rest = relocs.drop_first();
        match rel.symbol {
            None => apply_relocs(ns, rest, symbols, ro_index, table),
            Some(idx) => {
                if idx >= symbols.len() {
                    Err(ParseError::UnknownSymbolIndex { index: idx })
                } else if symbols[idx as int].section != Some(ro_index) {
                    apply_relocs(ns, rest, symbols, ro_index, table)
                } else {
                    match find_inst(ns, rel.offset) {
                        None => Err(ParseError::NoInstructionAtOffset { offset: rel.offset }),
                        Some(k) => {
                            let addend = spec_addend(ns[k].1);
                            match table_lookup(table, addend as u64) {
                                None => Err(ParseError::NoLabelForAddend { addend }),
                                Some(label) => apply_relocs(
                                    ns.update(k, (ns[k].0, TrailingOp::Name(label))),
                                    rest,
                                    symbols,
                                    ro_index,
                                    table,
                                ),
                            }
                        },
                    }
                }
            },
        }
    }
}

/// The relocation's implicit addend, read back from the instruction's
/// trailing operand.
pub fn addend_of(t: &TrailingOp) -> (r: i64)
    ensures
        r == spec_addend(*t),
{
    match t {
        TrailingOp::Int(v) => *v,
        _ => 0,
    }
}

fn find_at_offset(insts: &Vec<InstNode>, off: u64) -> (r: Option<usize>)
    ensures
        match r {
            Some(k) => k < insts@.len() && insts@[k as int].offset == off && forall|j: int|
                0 <= j < k ==> (#[trigger] insts@[j]).offset != off,
            None => forall|j: int| 0 <= j < insts@.len() ==> (#[trigger] insts@[j]).offset != off,
        },
{
    let n = insts.len();
    let mut i: usize = 0;
    while i < n
        invariant
            0 <= i <= n,
            n == insts@.len(),
            forall|j: int| 0 <= j < i ==> (#[trigger] insts@[j]).offset != off,
        decreases n - i,
    {
        if insts[i].offset == off {
            return Some(i);
        }
        i += 1;
    }
    None
}

/// Relies on the field layout of `sbpf_common::instruction::Instruction`:
/// rewrites the node's trailing (immediate) operand — the structured
/// instruction's `imm` field and the plain mirror alike — to a symbolic
/// reference to `label`, leaving the node's offset as it was.
#[verifier::external_body]
fn patch_node(n: InstNode, label: String) -> (r: InstNode)
    ensures
        r.offset == n.offset,
        r.imm == TrailingOp::Name(label),
{
    let mut raw = n.raw;
    raw.imm = Some(either::Either::Left(label.clone()));
    InstNode { raw, imm: TrailingOp::Name(label), offset: n.offset }
}

/// Relocation resolver: for each relocation of the text section, in order,
/// recovers the implicit addend from the already-decoded instruction at
/// the relocation's offset, resolves it through the rodata symbol table,
/// and rewrites that instruction's trailing operand to the resolved label.
/// Instruction offsets are never changed. On an error, the already
/// rewritten operands keep their labels; the caller discards the nodes.
pub fn resolve_relocations(
    insts: &mut Vec<InstNode>,
    relocs: &Vec<RelocRec>,
    symbols: &Vec<SymbolRec>,
    ro_index: u64,
    table: &SymbolTable,
) -> (r: Result<(), ParseError>)
    ensures
        final(insts)@.len() == old(insts)@.len(),
        forall|j: int|
            0 <= j < final(insts)@.len() ==> (#[trigger] final(insts)@[j]).offset == old(
                insts,
            )@[j].offset,
        match r {
            Ok(()) => apply_relocs(
                inst_model(old(insts)@),
                relocs@,
                symbols@,
                ro_index,
                table.entries@,
            ) matches Ok(m) && m.len() == final(insts)@.len() && forall|j: int|
                0 <= j < m.len() ==> op_matches((#[trigger] final(insts)@[j]).imm, m[j].1),
            Err(e) => apply_relocs(
                inst_model(old(insts)@),
                relocs@,
                symbols@,
                ro_index,
                table.entries@,
            ) == Err::<Seq<(u64, TrailingOp)>, ParseError>(e),
        },
{
    let n = relocs.len();
    let ghost model0 = inst_model(old(insts)@);
    let ghost mut ms = model0;
    proof {
        assert(relocs@.skip(0) =~= relocs@);
    }
    let mut i: usize = 0;
    while i < n
        invariant
            0 <= i <= n,
            n == relocs@.len(),
            model0 == inst_model(old(insts)@),
            ms.len() == insts@.len(),
            insts@.len() == old(insts)@.len(),
            forall|j: int|
                0 <= j < ms.len() ==> (#[trigger] ms[j]).0 == insts@[j].offset && op_matches(
                    insts@[j].imm,
                    ms[j].1,
                ),
            forall|j: int|
                0 <= j < insts@.len() ==> (#[trigger] insts@[j]).offset == old(insts)@[j].offset,
            apply_relocs(model0, relocs@, symbols@, ro_index, table.entries@) == apply_relocs(
                ms,
                relocs@.skip(i as int),
                symbols@,
                ro_index,
                table.entries@,
            ),
        decreases n - i,
    {
        proof {
            assert(relocs@.skip(i as int)[0] == relocs@[i as int]);
            assert(relocs@.skip(i as int).drop_first() =~= relocs@.skip(i as int + 1));
        }
        let rel = &relocs[i];
        let ghost step_in = apply_relocs(ms, relocs@.skip(i as int), symbols@, ro_index,
            table.entries@);
        match rel.symbol {
            None => {
                proof {
                    assert(step_in == apply_relocs(
                        ms,
                        relocs@.skip(i as int + 1),
                        symbols@,
                        ro_index,
                        table.entries@,
                    ));
                }
            },
            Some(idx) => {
                if idx >= symbols.len() as u64 {
                    proof {
                        assert(step_in == Err::<Seq<(u64, TrailingOp)>, ParseError>(
                            ParseError::UnknownSymbolIndex { index: idx },
                        ));
                    }
                    return Err(ParseError::UnknownSymbolIndex { index: idx });
                }
                let su = &symbols[idx as usize];
                let is_ro = match su.section {
                    Some(x) => x == ro_index,
                    None => false,
                };
                if is_ro {
                    proof {
                        lemma_find_inst(ms, rel.offset);
                    }
                    match find_at_offset(insts, rel.offset) {
                        None => {
                            proof {
                                assert(find_inst(ms, rel.offset) is None);
                                assert(step_in == Err::<Seq<(u64, TrailingOp)>, ParseError>(
                                    ParseError::NoInstructionAtOffset { offset: rel.offset },
                                ));
                            }
                            return Err(ParseError::NoInstructionAtOffset { offset: rel.offset });
                        },
                        Some(k) => {
                            proof {
                                if find_inst(ms, rel.offset) is Some {
                                    let ks = find_inst(ms, rel.offset)->Some_0;
                                    assert(ms[ks].0 == insts@[ks].offset);
                                    if ks < k as int {
                                        assert(insts@[ks].offset == rel.offset);
                                        assert(false);
                                    }
                                    if (k as int) < ks {
                                        assert(ms[k as int].0 == insts@[k as int].offset);
                                        assert(ms[k as int].0 == rel.offset);
                                        assert(false);
                                    }
                                    assert(ks == k as int);
                                } else {
                                    assert(ms[k as int].0 == insts@[k as int].offset);
                                    assert(false);
                                }
                            }
                            let a = addend_of(&insts[k].imm);
                            let key: u64 = #[verifier::truncate] (a as u64);
                            proof {
                                assert(spec_addend(ms[k as int].1) == a);
                            }
                            match table.lookup(key) {
                                None => {
                                    proof {
                                        assert(table_lookup(table.entries@, key) is None);
                                        assert(step_in == Err::<
                                            Seq<(u64, TrailingOp)>,
                                            ParseError,
                                        >(ParseError::NoLabelForAddend { addend: a }));
                                    }
                                    return Err(ParseError::NoLabelForAddend { addend: a });
                                },
                                Some(label) => {
                                    let ghost old_insts_here = insts@;
                                    let node = insts.remove(k);
                                    let patched = patch_node(node, label);
                                    insts.insert(k, patched);
                                    proof {
                                        assert(insts@ =~= old_insts_here.update(
                                            k as int,
                                            insts@[k as int],
                                        ));
                                        let spec_label = table_lookup(
                                            table.entries@,
                                            key,
                                        )->Some_0;
                                        let old_ms = ms;
                                        ms = ms.update(
                                            k as int,
                                            (ms[k as int].0, TrailingOp::Name(spec_label)),
                                        );
                                        assert(step_in == apply_relocs(
                                            ms,
                                            relocs@.skip(i as int + 1),
                                            symbols@,
                                            ro_index,
                                            table.entries@,
                                        ));
                                        assert(label@ == spec_label@);
                                    }
                                },
                            }
                        },
                    }
                } else {
                    proof {
                        assert(step_in == apply_relocs(
                            ms,
                            relocs@.skip(i as int + 1),
                            symbols@,
                            ro_index,
                            table.entries@,
                        ));
                    }
                }
            },
        }
        i += 1;
    }
    proof {
        assert(relocs@.skip(n as int) =~= Seq::<RelocRec>::empty());
    }
    Ok(())
}

} // verus!
