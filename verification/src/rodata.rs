use vstd::prelude::*;
use crate::errors::ParseError;
use crate::view::{SectionRec, SymbolRec};

verus! {

/// One read-only-data node of the rebuilt program: the symbol's name used
/// as its label, the raw bytes sliced out of the rodata section, and the
/// node's cumulative offset within the rodata segment.
#[derive(Debug)]
pub struct RodataNode {
    pub name: String,
    pub bytes: Vec<u8>,
    pub offset: u64,
}

/// The transient symbol table of one decode pass: (symbol address, label
/// name) pairs in symbol enumeration order. Read-only after construction;
/// on duplicate addresses the entry registered last wins, as an address
/// keyed map would behave.
#[derive(Debug)]
pub struct SymbolTable {
    pub entries: Vec<(u64, String)>,
}

/// Everything the rodata pass produces: the data nodes, the address-to-label
/// table, and the rodata segment's total byte size.
#[derive(Debug)]
pub struct RodataTable {
    pub nodes: Vec<RodataNode>,
    pub table: SymbolTable,
    pub total: u64,
}

/// The symbol belongs to the section with container index `ro_index` and
/// has a positive declared size. Zero-size symbols (section markers) are
/// skipped.
pub open spec fn sym_eligible(s: SymbolRec, ro_index: u64) -> bool {
    s.section == Some(ro_index) && s.size > 0
}

/// The eligible symbols of `syms`, in enumeration order.
pub open spec fn eligible_syms(syms: Seq<SymbolRec>, ro_index: u64) -> Seq<SymbolRec> {
    syms.filter(|s: SymbolRec| sym_eligible(s, ro_index))
}

/// The sum of the declared sizes of `syms`.
pub open spec fn total_size(syms: Seq<SymbolRec>) -> int
    decreases syms.len(),
{
    if syms.len() == 0 {
        0
    } else {
        total_size(syms.drop_last()) + syms.last().size
    }
}

/// What (if anything) stops the rodata pass at this symbol, given the
/// rodata payload length and the running size total so far: an unreadable
/// name, a slice that does not fit in the payload, or a total that no
/// longer fits in 64 bits. Checked in this order.
pub open spec fn sym_problem(s: SymbolRec, data_len: int, total_before: int) -> Option<ParseError> {
    if s.name is None {
        Some(ParseError::SymbolNameUnreadable { address: s.address })
    } else if s.address + s.size > data_len {
        Some(ParseError::SymbolOutOfRange { address: s.address, size: s.size })
    } else if total_before + s.size > u64::MAX {
        Some(ParseError::RodataTooLarge { address: s.address })
    } else {
        None
    }
}

/// The rodata pass fails with `e` exactly at symbol `i`: `i` is eligible
/// and problematic, and every eligible symbol before it is sound.
pub open spec fn rodata_err_at(
    symbols: Seq<SymbolRec>,
    ro_index: u64,
    data_len: int,
    i: int,
    e: ParseError,
) -> bool {
    &&& 0 <= i < symbols.len()
    &&& sym_eligible(symbols[i], ro_index)
    &&& sym_problem(
        symbols[i],
        data_len,
        total_size(eligible_syms(symbols.take(i), ro_index)),
    ) == Some(e)
    &&& forall|j: int|
        0 <= j < i && sym_eligible(#[trigger] symbols[j], ro_index) ==> sym_problem(
            symbols[j],
            data_len,
            total_size(eligible_syms(symbols.take(j), ro_index)),
        ) is None
}

/// No eligible symbol stops the rodata pass: every name is readable, every
/// slice fits the payload, and the running size total fits in 64 bits.
pub open spec fn rodata_pass_clean(syms: Seq<SymbolRec>, ro_index: u64, data_len: int) -> bool {
    forall|i: int|
        0 <= i < syms.len() && sym_eligible(#[trigger] syms[i], ro_index) ==> sym_problem(
            syms[i],
            data_len,
            total_size(eligible_syms(syms.take(i), ro_index)),
        ) is None
}

/// `nodes` are exactly the rodata nodes of the eligible symbols, in
/// enumeration order: the symbol's name as the label, the symbol's bytes
/// sliced from the payload, and the running total of the previous eligible
/// sizes — equivalently of the previous nodes' byte lengths — as the
/// offset.
pub open spec fn rodata_nodes_ok(
    syms: Seq<SymbolRec>,
    ro_index: u64,
    data: Seq<u8>,
    nodes: Seq<RodataNode>,
) -> bool {
    let elig = eligible_syms(syms, ro_index);
    &&& nodes.len() == elig.len()
    &&& forall|j: int|
        0 <= j < elig.len() ==> {
            &&& (#[trigger] nodes[j]).name@ == elig[j].name->Some_0@
            &&& nodes[j].bytes@ == data.subrange(
                elig[j].address as int,
                elig[j].address + elig[j].size,
            )
            &&& nodes[j].offset == total_size(elig.take(j))
            &&& nodes[j].offset == nodes_bytes_total(nodes, j)
        }
}

/// `entries` registers exactly the eligible symbols, in enumeration order:
/// each entry pairs a symbol's address with its name.
pub open spec fn entries_correspond(
    syms: Seq<SymbolRec>,
    ro_index: u64,
    entries: Seq<(u64, String)>,
) -> bool {
    let elig = eligible_syms(syms, ro_index);
    &&& entries.len() == elig.len()
    &&& forall|j: int|
        0 <= j < elig.len() ==> (#[trigger] entries[j]).0 == elig[j].address && entries[j].1@
            == elig[j].name->Some_0@
}

/// The label registered for `addr`, scanning the entries back to front so
/// that on duplicate addresses the entry registered last wins.
pub open spec fn table_lookup(entries: Seq<(u64, String)>, addr: u64) -> Option<String>
    decreases entries.len(),
{
    if entries.len() == 0 {
        None
    } else if entries.last().0 == addr {
        Some(entries.last().1)
    } else {
        table_lookup(entries.drop_last(), addr)
    }
}

/// The sum of the byte lengths of the first `k` nodes.
pub open spec fn nodes_bytes_total(ns: Seq<RodataNode>, k: int) -> int
    decreases k,
{
    if k <= 0 {
        0
    } else {
        nodes_bytes_total(ns, k - 1) + ns[k - 1].bytes@.len()
    }
}

proof fn lemma_nodes_bytes_total_push(ns: Seq<RodataNode>, x: RodataNode, k: int)
    requires
        0 <= k <= ns.len(),
    ensures
        nodes_bytes_total(ns.push(x), k) == nodes_bytes_total(ns, k),
    decreases k,
{
    if k > 0 {
        lemma_nodes_bytes_total_push(ns, x, k - 1);
    }
}

impl SymbolTable {
    /// Looks `addr` up in the table, handing back a copy of the registered
    /// label, if any.
    pub fn lookup(&self, addr: u64) -> (r: Option<String>)
        ensures
            match (r, table_lookup(self.entries@, addr)) {
                (Some(s), Some(t)) => s@ == t@,
                (None, None) => true,
                _ => false,
            },
    {
        let mut i: usize = self.entries.len();
        proof {
            assert(self.entries@.take(i as int) =~= self.entries@);
        }
        while i > 0
            invariant
                0 <= i <= self.entries@.len(),
                table_lookup(self.entries@, addr) == table_lookup(
                    self.entries@.take(i as int),
                    addr,
                ),
            decreases i,
        {
            i = i - 1;
            let entry = &self.entries[i];
            proof {
                assert(self.entries@.take(i as int + 1).last() == self.entries@[i as int]);
                assert(self.entries@.take(i as int + 1).drop_last() =~= self.entries@.take(
                    i as int,
                ));
            }
            if entry.0 == addr {
                return Some(entry.1.clone());
            }
        }
        None
    }
}

/// Read-only-data table builder: walks the symbols in enumeration order,
/// slices each eligible symbol's bytes out of the rodata payload, assigns
/// it the running size total as its offset, and registers its
/// address-to-label mapping. The recorded total is the rodata segment's
/// byte size.
#[verifier::rlimit(100)]
pub fn build_rodata_table(symbols: &Vec<SymbolRec>, ro: &SectionRec) -> (r: Result<
    RodataTable,
    ParseError,
>)
    requires
        ro.name is Some,
    ensures
        match r {
            Ok(out) => {
                &&& ro.data is Some
                &&& rodata_pass_clean(symbols@, ro.index, ro.data->Some_0@.len() as int)
                &&& rodata_nodes_ok(symbols@, ro.index, ro.data->Some_0@, out.nodes@)
                &&& out.total == total_size(eligible_syms(symbols@, ro.index))
                &&& out.total == nodes_bytes_total(out.nodes@, out.nodes@.len() as int)
                &&& entries_correspond(symbols@, ro.index, out.table.entries@)
            },
            Err(e) => {
                ||| (ro.data is None && (e matches ParseError::SectionDataUnreadable { name } &&
                name@ == ro.name->Some_0@))
                ||| (ro.data is Some && exists|i: int|
                    rodata_err_at(symbols@, ro.index, ro.data->Some_0@.len() as int, i, e))
            },
        },
{
    let data: &Vec<u8> = match &ro.data {
        Some(d) => d,
        None => {
            let name = match &ro.name {
                Some(n) => n.clone(),
                None => String::new(),
            };
            return Err(ParseError::SectionDataUnreadable { name });
        },
    };
    let ghost dlen: int = data@.len() as int;
    let dl: usize = data.len();
    let avail: u64 = dl as u64;
    let n = symbols.len();
    let mut nodes: Vec<RodataNode> = Vec::new();
    let mut entries: Vec<(u64, String)> = Vec::new();
    let mut total: u64 = 0;
    let mut i: usize = 0;
    while i < n
        invariant
            0 <= i <= n,
            n == symbols@.len(),
            ro.data matches Some(d) && d@ == data@,
            avail == data@.len(),
            dl == data@.len(),
            dlen == data@.len() as int,
            nodes@.len() == eligible_syms(symbols@.take(i as int), ro.index).len(),
            entries@.len() == nodes@.len(),
            total == total_size(eligible_syms(symbols@.take(i as int), ro.index)),
            total == nodes_bytes_total(nodes@, nodes@.len() as int),
            forall|j: int|
                0 <= j < i && sym_eligible(#[trigger] symbols@[j], ro.index) ==> sym_problem(
                    symbols@[j],
                    dlen,
                    total_size(eligible_syms(symbols@.take(j), ro.index)),
                ) is None,
            forall|j: int|
                0 <= j < nodes@.len() ==> {
                    let elig = eligible_syms(symbols@.take(i as int), ro.index);
                    &&& (#[trigger] nodes@[j]).name@ == elig[j].name->Some_0@
                    &&& nodes@[j].bytes@ == data@.subrange(
                        elig[j].address as int,
                        elig[j].address + elig[j].size,
                    )
                    &&& nodes@[j].offset == total_size(elig.take(j))
                    &&& nodes@[j].offset == nodes_bytes_total(nodes@, j)
                },
            forall|j: int|
                0 <= j < entries@.len() ==> {
                    let elig = eligible_syms(symbols@.take(i as int), ro.index);
                    &&& (#[trigger] entries@[j]).0 == elig[j].address
                    &&& entries@[j].1@ == elig[j].name->Some_0@
                },
        decreases n - i,
    {
        let s = &symbols[i];
        let ghost pre_elig = eligible_syms(symbols@.take(i as int), ro.index);
        proof {
            assert(symbols@.take(i as int + 1) =~= symbols@.take(i as int) + seq![
                symbols@[i as int],
            ]);
            Seq::<SymbolRec>::filter_distributes_over_add(
                symbols@.take(i as int),
                seq![symbols@[i as int]],
                |sy: SymbolRec| sym_eligible(sy, ro.index),
            );
            reveal_with_fuel(Seq::filter, 2);
        }
        let is_eligible = match s.section {
            Some(x) => x == ro.index && s.size > 0,
            None => false,
        };
        if is_eligible {
            let ghost new_elig = eligible_syms(symbols@.take(i as int + 1), ro.index);
            proof {
                assert(new_elig =~= pre_elig.push(symbols@[i as int]));
                assert(new_elig.drop_last() =~= pre_elig);
            }
            let name: String = match &s.name {
                Some(nm) => nm.clone(),
                None => {
                    proof {
                        assert(rodata_err_at(
                            symbols@,
                            ro.index,
                            dlen,
                            i as int,
                            ParseError::SymbolNameUnreadable { address: s.address },
                        ));
                    }
                    return Err(ParseError::SymbolNameUnreadable { address: s.address });
                },
            };
            if s.size > avail || s.address > avail - s.size {
                proof {
                    assert(rodata_err_at(
                        symbols@,
                        ro.index,
                        dlen,
                        i as int,
                        ParseError::SymbolOutOfRange { address: s.address, size: s.size },
                    ));
                }
                return Err(ParseError::SymbolOutOfRange { address: s.address, size: s.size });
            }
            let new_total: u64 = match total.checked_add(s.size) {
                Some(t) => t,
                None => {
                    proof {
                        assert(rodata_err_at(
                            symbols@,
                            ro.index,
                            dlen,
                            i as int,
                            ParseError::RodataTooLarge { address: s.address },
                        ));
                    }
                    return Err(ParseError::RodataTooLarge { address: s.address });
                },
            };
            proof {
                assert(s.address + s.size <= data@.len());
                assert(data@.len() == dl <= usize::MAX);
            }
            let start: usize = s.address as usize;
            let count: usize = s.size as usize;
            let mut bytes: Vec<u8> = Vec::new();
            let mut k: usize = 0;
            while k < count
                invariant
                    0 <= k <= count,
                    start == s.address as int,
                    count == s.size as int,
                    start + count <= data@.len(),
                    dl == data@.len(),
                    bytes@ == data@.subrange(start as int, start as int + k as int),
                decreases count - k,
            {
                bytes.push(data[start + k]);
                proof {
                    assert(bytes@ =~= data@.subrange(start as int, start as int + k as int + 1));
                }
                k += 1;
            }
            let offset: u64 = total;
            let node_name = name.clone();
            let ghost old_nodes = nodes@;
            let ghost old_entries = entries@;
            nodes.push(RodataNode { name: node_name, bytes, offset });
            entries.push((s.address, name));
            total = new_total;
            proof {
                assert(nodes@ == old_nodes.push(nodes@.last()));
                assert(new_elig.last() == symbols@[i as int]);
                assert(total == total_size(new_elig));
                assert(new_elig.take(pre_elig.len() as int) =~= pre_elig);
                assert forall|j: int| 0 <= j < nodes@.len() implies nodes_bytes_total(nodes@, j)
                    == nodes_bytes_total(old_nodes, j) by {
                    lemma_nodes_bytes_total_push(old_nodes, nodes@.last(), j);
                }
                assert(nodes@[nodes@.len() - 1].offset == nodes_bytes_total(
                    nodes@,
                    nodes@.len() - 1,
                ));
                assert forall|j: int| 0 <= j < nodes@.len() implies {
                    &&& (#[trigger] nodes@[j]).name@ == new_elig[j].name->Some_0@
                    &&& nodes@[j].bytes@ == data@.subrange(
                        new_elig[j].address as int,
                        new_elig[j].address + new_elig[j].size,
                    )
                    &&& nodes@[j].offset == total_size(new_elig.take(j))
                    &&& nodes@[j].offset == nodes_bytes_total(nodes@, j)
                } by {
                    if j < nodes@.len() - 1 {
                        assert(nodes@[j] == old_nodes[j]);
                        assert(new_elig[j] == pre_elig[j]);
                        assert(new_elig.take(j) =~= pre_elig.take(j));
                    } else {
                        assert(nodes@[j].bytes@ == data@.subrange(
                            s.address as int,
                            s.address + s.size,
                        ));
                    }
                }
                assert forall|j: int| 0 <= j < entries@.len() implies {
                    &&& (#[trigger] entries@[j]).0 == new_elig[j].address
                    &&& entries@[j].1@ == new_elig[j].name->Some_0@
                } by {
                    if j < entries@.len() - 1 {
                        assert(entries@[j] == old_entries[j]);
                        assert(new_elig[j] == pre_elig[j]);
                    }
                }
            }
        } else {
            proof {
                assert(eligible_syms(symbols@.take(i as int + 1), ro.index) =~= pre_elig);
            }
        }
        i += 1;
    }
    proof {
        assert(symbols@.take(n as int) =~= symbols@);
    }
    Ok(RodataTable { nodes, table: SymbolTable { entries }, total })
}

} // verus!
