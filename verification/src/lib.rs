//! Re-assembly front end of an sBPF bytecode linker.
//!
//! Given a view of a compiled object file (sections, symbols, relocations),
//! the crate rebuilds a symbolic program representation: read-only data
//! nodes, decoded instructions tagged with their text offsets, and debug
//! blobs, with every relocation's implicit addend resolved to a symbolic
//! label. The reconstructed program can then be handed to the downstream
//! sbpf assembler to be re-linked.

mod errors;
mod view;
mod rodata;
mod textdec;
mod reloc;
mod parse;
mod layout;

pub use errors::ParseError;
pub use view::{ObjectView, SectionRec, SymbolRec, RelocRec, Located};
pub use view::locate_sections;
pub use rodata::{RodataNode, RodataTable, SymbolTable, build_rodata_table};
pub use textdec::{TrailingOp, InstNode, decode_text};
pub use textdec::{STANDARD_INSTRUCTION_SIZE, LDDW_INSTRUCTION_SIZE, WIDE_LOAD_OPCODE};
pub use reloc::{addend_of, resolve_relocations};
pub use parse::{Program, DebugBlob, parse_bytecode};
pub use layout::build_layout;
