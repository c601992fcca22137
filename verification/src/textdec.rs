use vstd::prelude::*;
use crate::errors::ParseError;

verus! {

/// Byte length of every instruction encoding except the wide form.
pub const STANDARD_INSTRUCTION_SIZE: usize = 8;

/// Byte length of the wide immediate-load encoding.
pub const LDDW_INSTRUCTION_SIZE: usize = 16;

/// The one opcode byte that selects the wide immediate-load encoding.
pub const WIDE_LOAD_OPCODE: u8 = 0x18;

/// The trailing operand of a decoded instruction: an integer immediate, an
/// address immediate, a symbolic name (a syscall name the decoder
/// recognized, or a rodata label written in by relocation resolution), or
/// nothing at all for instructions without an immediate.
#[derive(Debug, Clone, PartialEq)]
pub enum TrailingOp {
    Int(i64),
    Addr(i64),
    Name(String),
    Missing,
}

#[verifier::external_type_specification]
#[verifier::external_body]
pub struct ExInstruction(sbpf_common::instruction::Instruction);

/// One decoded instruction of the text section: the decoder's structured
/// instruction value, a plain mirror of its trailing (immediate) operand
/// that the verified logic reads and rewrites, and the instruction's byte
/// offset within the text section.
#[derive(Debug)]
pub struct InstNode {
    pub raw: sbpf_common::instruction::Instruction,
    pub imm: TrailingOp,
    pub offset: u64,
}

/// What `sbpf_common::instruction::Instruction::from_bytes` makes of one
/// exactly-sized instruction encoding: `None` when the bytes decode to no
/// known instruction, otherwise the decoded instruction's trailing
/// (immediate) operand. The decode is a function of the bytes alone.
pub uninterp spec fn spec_decode(bytes: Seq<u8>) -> Option<TrailingOp>;

/// The byte length of the instruction that starts with opcode byte `op`:
/// the encoding width depends on the opcode alone, never on operand bytes.
pub open spec fn spec_width(op: u8) -> int {
    if op == WIDE_LOAD_OPCODE {
        LDDW_INSTRUCTION_SIZE as int
    } else {
        STANDARD_INSTRUCTION_SIZE as int
    }
}

/// Relies on `sbpf_common::opcode::Opcode`: its `TryFrom<u8>` table maps
/// the byte 0x18 to the wide immediate-load form `Opcode::Lddw` and no
/// other byte to that form.
#[verifier::external_body]
fn is_wide_opcode(b: u8) -> (r: bool)
    ensures
        r == (b == WIDE_LOAD_OPCODE),
{
    matches!(sbpf_common::opcode::Opcode::try_from(b), Ok(sbpf_common::opcode::Opcode::Lddw))
}

/// Relies on the field layout of `sbpf_common::instruction::Instruction`:
/// copies the instruction's `imm` field into the crate's own trailing
/// operand type, variant for variant.
#[verifier::external_body]
fn trailing_of(inst: &sbpf_common::instruction::Instruction) -> TrailingOp {
    match &inst.imm {
        None => TrailingOp::Missing,
        Some(e) => match e.as_ref().left() {
            Some(name) => TrailingOp::Name(name.clone()),
            None => match e.as_ref().right() {
                Some(sbpf_common::inst_param::Number::Int(v)) => TrailingOp::Int(*v),
                Some(sbpf_common::inst_param::Number::Addr(v)) => TrailingOp::Addr(*v),
                None => TrailingOp::Missing,
            },
        },
    }
}

/// Relies on `sbpf_common::instruction::Instruction::from_bytes`: decodes
/// one exactly-sized instruction encoding, deterministically in the bytes;
/// the returned mirror is the decoded instruction's trailing operand. The
/// byte length handed in must match the opcode's encoding width, which is
/// all `from_bytes` reads.
#[verifier::external_body]
fn decode_instruction(bytes: &Vec<u8>) -> (r: Result<
    (sbpf_common::instruction::Instruction, TrailingOp),
    String,
>)
    requires
        bytes@.len() == spec_width(bytes@[0]),
    ensures
        match r {
            Ok(p) => spec_decode(bytes@) == Some(p.1),
            Err(_) => spec_decode(bytes@) is None,
        },
{
    match sbpf_common::instruction::Instruction::from_bytes(bytes) {
        Ok(inst) => {
            let t = trailing_of(&inst);
            Ok((inst, t))
        },
        Err(e) => Err(e.to_string()),
    }
}

/// The instruction offsets of the text bytes `data`, starting at `off`:
/// each step reads the opcode byte, takes the width the opcode dictates,
/// and advances; `Err` carries the first offset where the bytes run short
/// or decode to no known instruction.
pub open spec fn spec_text_offsets(data: Seq<u8>, off: int) -> Result<Seq<int>, int>
    decreases data.len() - off,
    when 0 <= off <= data.len()
{
    if off == data.len() {
        Ok(Seq::empty())
    } else {
        let w = spec_width(data[off]);
        if off + w > data.len() {
            Err(off)
        } else if spec_decode(data.subrange(off, off + w)) is None {
            Err(off)
        } else {
            match spec_text_offsets(data, off + w) {
                Ok(rest) => Ok(seq![off] + rest),
                Err(bad) => Err(bad),
            }
        }
    }
}

/// The (offset, trailing operand) models of a cleanly decoding text
/// section, before any relocation is applied.
pub open spec fn decoded_model(data: Seq<u8>) -> Seq<(u64, TrailingOp)> {
    spec_text_offsets(data, 0)->Ok_0.map_values(
        |o: int|
            (
                o as u64,
                spec_decode(data.subrange(o, o + spec_width(data[o])))->Some_0,
            ),
    )
}

/// `r` with the offsets `done` put back in front.
pub open spec fn prepend_offsets(done: Seq<int>, r: Result<Seq<int>, int>) -> Result<
    Seq<int>,
    int,
> {
    match r {
        Ok(rest) => Ok(done + rest),
        Err(bad) => Err(bad),
    }
}

/// Instruction decoder: walks the text bytes from offset 0, classifies
/// each opcode byte's encoding width, decodes exactly that many bytes into
/// an instruction node tagged with the current offset, and advances by the
/// consumed width until the section is fully consumed. The first byte
/// sequence that runs short or decodes to no known instruction fails the
/// whole walk with its offset; decoding never resynchronizes past bad
/// bytes.
pub fn decode_text(data: &Vec<u8>) -> (r: Result<Vec<InstNode>, ParseError>)
    ensures
        match r {
            Ok(nodes) => spec_text_offsets(data@, 0) matches Ok(offs) && {
                &&& nodes@.len() == offs.len()
                &&& forall|j: int| 0 <= j < offs.len() ==> (#[trigger] nodes@[j]).offset == offs[j]
                &&& forall|j: int|
                    0 <= j < offs.len() ==> 0 <= offs[j] && offs[j] + spec_width(
                        data@[offs[j]],
                    ) <= data@.len() && (#[trigger] nodes@[j]).imm == spec_decode(
                        data@.subrange(offs[j], offs[j] + spec_width(data@[offs[j]])),
                    )->Some_0
            },
            Err(e) => spec_text_offsets(data@, 0) matches Err(bad) && (e matches
            ParseError::DecodeFailure { offset, detail } && offset == bad),
        },
{
    let n = data.len();
    let mut nodes: Vec<InstNode> = Vec::new();
    let mut off: usize = 0;
    let ghost mut done: Seq<int> = Seq::empty();
    proof {
        assert(done + spec_text_offsets(data@, 0)->Ok_0 =~= spec_text_offsets(data@, 0)->Ok_0);
    }
    while off < n
        invariant
            0 <= off <= n,
            n == data@.len(),
            spec_text_offsets(data@, 0) == prepend_offsets(
                done,
                spec_text_offsets(data@, off as int),
            ),
            nodes@.len() == done.len(),
            forall|j: int| 0 <= j < done.len() ==> (#[trigger] nodes@[j]).offset == done[j],
            forall|j: int|
                0 <= j < done.len() ==> 0 <= done[j] && done[j] + spec_width(data@[done[j]])
                    <= n && (#[trigger] nodes@[j]).imm == spec_decode(
                    data@.subrange(done[j], done[j] + spec_width(data@[done[j]])),
                )->Some_0,
        decreases n - off,
    {
        let b = data[off];
        let wide = is_wide_opcode(b);
        let w: usize = if wide {
            LDDW_INSTRUCTION_SIZE
        } else {
            STANDARD_INSTRUCTION_SIZE
        };
        if n - off < w {
            return Err(ParseError::DecodeFailure {
                offset: off as u64,
                detail: "instruction bytes run past the end of the text section".to_owned(),
            });
        }
        let mut chunk: Vec<u8> = Vec::new();
        let mut k: usize = 0;
        while k < w
            invariant
                0 <= k <= w,
                off + w <= n,
                n == data@.len(),
                chunk@ == data@.subrange(off as int, off as int + k as int),
            decreases w - k,
        {
            chunk.push(data[off + k]);
            proof {
                assert(chunk@ =~= data@.subrange(off as int, off as int + k as int + 1));
            }
            k += 1;
        }
        proof {
            assert(chunk@ =~= data@.subrange(off as int, off as int + spec_width(data@[off as int])));
        }
        match decode_instruction(&chunk) {
            Err(msg) => {
                return Err(ParseError::DecodeFailure { offset: off as u64, detail: msg });
            },
            Ok(p) => {
                let (raw, imm) = p;
                let ghost old_nodes = nodes@;
                nodes.push(InstNode { raw, imm, offset: off as u64 });
                proof {
                    let rest = spec_text_offsets(data@, off as int + w as int);
                    if rest is Ok {
                        assert(done + (seq![off as int] + rest->Ok_0) =~= done.push(off as int)
                            + rest->Ok_0);
                    }
                    done = done.push(off as int);
                }
                off = off + w;
            },
        }
    }
    proof {
        assert(spec_text_offsets(data@, n as int) == Ok::<Seq<int>, int>(Seq::empty()));
        assert(done + Seq::<int>::empty() =~= done);
    }
    Ok(nodes)
}

/// Law: a text section composed only of standard-width opcodes decodes to
/// exactly one node per standard width of bytes, at offsets that are the
/// consecutive multiples of the standard width.
pub proof fn lemma_standard_width_offsets(data: Seq<u8>, off: int)
    requires
        0 <= off <= data.len(),
        spec_text_offsets(data, off) is Ok,
        forall|j: int|
            0 <= j < spec_text_offsets(data, off)->Ok_0.len() ==> data[#[trigger] spec_text_offsets(
                data,
                off,
            )->Ok_0[j]] != WIDE_LOAD_OPCODE,
    ensures
        (data.len() - off) % (STANDARD_INSTRUCTION_SIZE as int) == 0,
        spec_text_offsets(data, off)->Ok_0.len() == (data.len() - off) / (
        STANDARD_INSTRUCTION_SIZE as int),
        forall|j: int|
            0 <= j < spec_text_offsets(data, off)->Ok_0.len() ==> spec_text_offsets(
                data,
                off,
            )->Ok_0[j] == off + (STANDARD_INSTRUCTION_SIZE as int) * j,
    decreases data.len() - off,
{
    let offs = spec_text_offsets(data, off)->Ok_0;
    if off < data.len() {
        let rest = spec_text_offsets(data, off + 8)->Ok_0;
        assert(offs[0] == off);
        assert(data[off] != WIDE_LOAD_OPCODE);
        assert(forall|j: int| 0 <= j < rest.len() ==> offs[j + 1] == rest[j]);
        lemma_standard_width_offsets(data, off + 8);
    }
}

/// Decoding a concatenation: when `a` decodes cleanly from `off`, the
/// offsets of `a + b` are those of `a` followed by those of `b` shifted by
/// `a`'s length, and a failure in `b` surfaces shifted the same way.
pub proof fn lemma_offsets_shift(a: Seq<u8>, b: Seq<u8>, k: int)
    requires
        0 <= k <= b.len(),
    ensures
        spec_text_offsets(a + b, a.len() + k) == (match spec_text_offsets(b, k) {
            Ok(bo) => Ok::<Seq<int>, int>(bo.map_values(|x: int| x + a.len())),
            Err(bad) => Err::<Seq<int>, int>(bad + a.len()),
        }),
    decreases b.len() - k,
{
    let data = a + b;
    if a.len() + k == data.len() {
        assert(Seq::<int>::empty().map_values(|x: int| x + a.len()) =~= Seq::<int>::empty());
    } else {
        assert(data[a.len() + k] == b[k]);
        let w = spec_width(b[k]);
        if k + w > b.len() {
        } else {
            assert(data.subrange(a.len() + k, a.len() + k + w) =~= b.subrange(k, k + w));
            lemma_offsets_shift(a, b, k + w);
            match spec_text_offsets(b, k + w) {
                Ok(rest) => {
                    if spec_decode(b.subrange(k, k + w)) is Some {
                        assert(seq![a.len() + k] + rest.map_values(|x: int| x + a.len()) =~= (
                        seq![k] + rest).map_values(|x: int| x + a.len()));
                    }
                },
                Err(_) => {},
            }
        }
    }
}

/// Decoding a concatenation from inside `a`: the offsets of `a + b` from
/// `off` are `a`'s own offsets followed by `b`'s offsets shifted by `a`'s
/// length.
pub proof fn lemma_offsets_concat(a: Seq<u8>, b: Seq<u8>, off: int)
    requires
        0 <= off <= a.len(),
        spec_text_offsets(a, off) is Ok,
    ensures
        spec_text_offsets(a + b, off) == (match spec_text_offsets(b, 0) {
            Ok(bo) => Ok::<Seq<int>, int>(
                spec_text_offsets(a, off)->Ok_0 + bo.map_values(|x: int| x + a.len()),
            ),
            Err(bad) => Err::<Seq<int>, int>(bad + a.len()),
        }),
    decreases a.len() - off,
{
    let data = a + b;
    if off == a.len() {
        lemma_offsets_shift(a, b, 0);
        match spec_text_offsets(b, 0) {
            Ok(bo) => {
                assert(spec_text_offsets(a, off)->Ok_0 =~= Seq::<int>::empty());
                assert(Seq::<int>::empty() + bo.map_values(|x: int| x + a.len()) =~= bo.map_values(
                    |x: int| x + a.len(),
                ));
            },
            Err(_) => {},
        }
    } else {
        let w = spec_width(a[off]);
        assert(data[off] == a[off]);
        assert(off + w <= a.len());
        assert(data.subrange(off, off + w) =~= a.subrange(off, off + w));
        lemma_offsets_concat(a, b, off + w);
        match spec_text_offsets(b, 0) {
            Ok(bo) => {
                assert(seq![off] + (spec_text_offsets(a, off + w)->Ok_0 + bo.map_values(
                    |x: int| x + a.len(),
                )) =~= (seq![off] + spec_text_offsets(a, off + w)->Ok_0) + bo.map_values(
                    |x: int| x + a.len(),
                ));
            },
            Err(_) => {},
        }
    }
}

/// Law: replacing one standard-width instruction by one wide
/// immediate-load instruction shifts every subsequent instruction offset
/// by exactly the double width minus the standard width, and leaves every
/// earlier offset (and the offset of the replaced slot itself) unchanged.
pub proof fn lemma_wide_insert_shift(pre: Seq<u8>, wide: Seq<u8>, std_inst: Seq<u8>, suf: Seq<u8>)
    requires
        spec_text_offsets(pre, 0) is Ok,
        spec_text_offsets(suf, 0) is Ok,
        wide.len() == LDDW_INSTRUCTION_SIZE as int,
        wide[0] == WIDE_LOAD_OPCODE,
        spec_decode(wide) is Some,
        std_inst.len() == STANDARD_INSTRUCTION_SIZE as int,
        std_inst[0] != WIDE_LOAD_OPCODE,
        spec_decode(std_inst) is Some,
    ensures
        ({
            let bo = spec_text_offsets(pre + std_inst + suf, 0);
            let vo = spec_text_offsets(pre + wide + suf, 0);
            let k = spec_text_offsets(pre, 0)->Ok_0.len() as int;
            &&& bo is Ok
            &&& vo is Ok
            &&& vo->Ok_0.len() == bo->Ok_0.len()
            &&& forall|j: int| 0 <= j <= k && j < bo->Ok_0.len() ==> vo->Ok_0[j] == bo->Ok_0[j]
            &&& forall|j: int|
                k < j < bo->Ok_0.len() ==> vo->Ok_0[j] == bo->Ok_0[j] + (
                LDDW_INSTRUCTION_SIZE as int - STANDARD_INSTRUCTION_SIZE as int)
        }),
{
    let po = spec_text_offsets(pre, 0)->Ok_0;
    let so = spec_text_offsets(suf, 0)->Ok_0;
    assert(spec_text_offsets(wide, 0) == Ok::<Seq<int>, int>(seq![0int])) by {
        reveal_with_fuel(spec_text_offsets, 3);
        assert(wide.subrange(0, 16) =~= wide);
        assert(spec_text_offsets(wide, 16) == Ok::<Seq<int>, int>(Seq::empty()));
        assert(seq![0int] + Seq::<int>::empty() =~= seq![0int]);
    }
    assert(spec_text_offsets(std_inst, 0) == Ok::<Seq<int>, int>(seq![0int])) by {
        reveal_with_fuel(spec_text_offsets, 3);
        assert(std_inst.subrange(0, 8) =~= std_inst);
        assert(spec_text_offsets(std_inst, 8) == Ok::<Seq<int>, int>(Seq::empty()));
        assert(seq![0int] + Seq::<int>::empty() =~= seq![0int]);
    }
    lemma_offsets_concat(wide, suf, 0);
    lemma_offsets_concat(std_inst, suf, 0);
    lemma_offsets_concat(pre, wide + suf, 0);
    lemma_offsets_concat(pre, std_inst + suf, 0);
    assert(pre + (wide + suf) =~= pre + wide + suf);
    assert(pre + (std_inst + suf) =~= pre + std_inst + suf);
    let vo = spec_text_offsets(pre + wide + suf, 0);
    let bo = spec_text_offsets(pre + std_inst + suf, 0);
    assert(vo->Ok_0 =~= po + (seq![0] + so.map_values(|x: int| x + 16)).map_values(
        |x: int| x + pre.len(),
    ));
    assert(bo->Ok_0 =~= po + (seq![0] + so.map_values(|x: int| x + 8)).map_values(
        |x: int| x + pre.len(),
    ));
    assert forall|j: int| 0 <= j < bo->Ok_0.len() implies {
        &&& j <= po.len() ==> vo->Ok_0[j] == bo->Ok_0[j]
        &&& j > po.len() ==> vo->Ok_0[j] == bo->Ok_0[j] + 8
    } by {
        if j > po.len() {
            assert(vo->Ok_0[j] == so.map_values(|x: int| x + 16)[j - po.len() - 1] + pre.len());
            assert(bo->Ok_0[j] == so.map_values(|x: int| x + 8)[j - po.len() - 1] + pre.len());
        }
    }
}

} // verus!
