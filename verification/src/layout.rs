use vstd::prelude::*;
use crate::parse::Program;
use crate::rodata::RodataNode;
use crate::textdec::InstNode;

verus! {

#[verifier::external_type_specification]
#[verifier::external_body]
pub struct ExASTNode(sbpf_assembler::astnode::ASTNode);

#[verifier::external_type_specification]
#[verifier::external_body]
pub struct ExProgramLayout(sbpf_assembler::parser::ProgramLayout);

#[verifier::external_type_specification]
#[verifier::external_body]
pub struct ExCompileError(sbpf_assembler::errors::CompileError);

#[verifier::external_type_specification]
#[verifier::external_body]
pub struct ExDebugSection(sbpf_assembler::section::DebugSection);

#[verifier::external_type_specification]
#[verifier::external_body]
pub struct ExNumber(sbpf_common::inst_param::Number);

/// Relies on the field layout of `sbpf_assembler::astnode::ASTNode`: wraps
/// one decoded instruction and its text offset as an instruction node of
/// the downstream assembler's tree.
#[verifier::external_body]
fn ast_instruction(node: InstNode) -> sbpf_assembler::astnode::ASTNode {
    sbpf_assembler::astnode::ASTNode::Instruction { instruction: node.raw, offset: node.offset }
}

/// Relies on `sbpf_common::inst_param::Number`: one raw byte as the
/// integer literal the downstream assembler's data nodes carry.
#[verifier::external_body]
fn byte_literal(b: u8) -> sbpf_common::inst_param::Number {
    sbpf_common::inst_param::Number::Int(i64::from(b))
}

/// Relies on `sbpf_assembler::astnode::ROData`: wraps one rodata node's
/// label and already-converted byte literals as the byte-directive data
/// node the downstream assembler expects.
#[verifier::external_body]
fn ast_rodata(
    name: String,
    literals: Vec<sbpf_common::inst_param::Number>,
    offset: u64,
) -> sbpf_assembler::astnode::ASTNode {
    sbpf_assembler::astnode::ASTNode::ROData {
        rodata: sbpf_assembler::astnode::ROData {
            name,
            args: vec![
                sbpf_assembler::parser::Token::Directive(String::from("byte"), 0..1),
                sbpf_assembler::parser::Token::VectorLiteral(literals, 0..1),
            ],
            span: 0..1,
        },
        offset,
    }
}

/// Relies on `sbpf_assembler::section::DebugSection::new`: wraps one debug
/// blob; its placement offsets are computed downstream, not here.
#[verifier::external_body]
fn debug_section_of(name: &String, data: Vec<u8>) -> sbpf_assembler::section::DebugSection {
    sbpf_assembler::section::DebugSection::new(name.as_str(), 0, data)
}

/// Relies on `sbpf_assembler::ast::build_program`: the downstream builder
/// validates and packages the reconstructed nodes (legacy architecture, no
/// optimization passes, as fits re-linking already-compiled bytecode) and
/// reports its structural errors. The debug sections are attached to the
/// result unchanged.
#[verifier::external_body]
fn build_program_layout(
    nodes: Vec<sbpf_assembler::astnode::ASTNode>,
    rodata_nodes: Vec<sbpf_assembler::astnode::ASTNode>,
    text_size: u64,
    rodata_size: u64,
    debug: Vec<sbpf_assembler::section::DebugSection>,
) -> Result<sbpf_assembler::parser::ProgramLayout, Vec<sbpf_assembler::errors::CompileError>> {
    let mut ast = sbpf_assembler::ast::AST::new();
    ast.nodes = nodes;
    ast.rodata_nodes = rodata_nodes;
    ast.set_text_size(text_size);
    ast.set_rodata_size(rodata_size);
    let arch = sbpf_assembler::SbpfArch::V0;
    let cfg = sbpf_assembler::OptimizationConfig::disabled();
    match sbpf_assembler::ast::build_program(ast, arch, cfg) {
        Ok(mut layout) => {
            layout.debug_sections = debug;
            Ok(layout)
        },
        Err(errors) => Err(errors),
    }
}

/// Program assembler: hands the rebuilt program to the downstream builder
/// in one validation-and-packaging pass and returns its layout, or the
/// builder's structural errors (duplicate labels, unresolvable
/// references). The nodes and debug blobs are converted one for one, in
/// order; nothing is mutated here. What the builder makes of them is the
/// downstream assembler's contract, so nothing more is promised of the
/// result.
pub fn build_layout(p: Program) -> Result<
    sbpf_assembler::parser::ProgramLayout,
    Vec<sbpf_assembler::errors::CompileError>,
> {
    let mut insts = p.insts;
    let mut nodes: Vec<sbpf_assembler::astnode::ASTNode> = Vec::new();
    let n_insts = insts.len();
    let mut i: usize = 0;
    while i < n_insts
        invariant
            insts@.len() + i == n_insts,
        decreases n_insts - i,
    {
        let node = insts.remove(0);
        nodes.push(ast_instruction(node));
        i += 1;
    }
    let mut rodata = p.rodata;
    let mut rodata_nodes: Vec<sbpf_assembler::astnode::ASTNode> = Vec::new();
    let n_ro = rodata.len();
    let mut j: usize = 0;
    while j < n_ro
        invariant
            rodata@.len() + j == n_ro,
        decreases n_ro - j,
    {
        let node = rodata.remove(0);
        let mut literals: Vec<sbpf_common::inst_param::Number> = Vec::new();
        let n_bytes = node.bytes.len();
        let mut b: usize = 0;
        while b < n_bytes
            invariant
                b <= n_bytes,
                n_bytes == node.bytes@.len(),
            decreases n_bytes - b,
        {
            literals.push(byte_literal(node.bytes[b]));
            b += 1;
        }
        rodata_nodes.push(ast_rodata(node.name, literals, node.offset));
        j += 1;
    }
    let mut debug_secs: Vec<sbpf_assembler::section::DebugSection> = Vec::new();
    let mut blobs = p.debug;
    let n_dbg = blobs.len();
    let mut k: usize = 0;
    while k < n_dbg
        invariant
            blobs@.len() + k == n_dbg,
        decreases n_dbg - k,
    {
        let blob = blobs.remove(0);
        debug_secs.push(debug_section_of(&blob.name, blob.data));
        k += 1;
    }
    build_program_layout(nodes, rodata_nodes, p.text_size, p.rodata_size, debug_secs)
}

} // verus!
