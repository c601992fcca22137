use vstd::prelude::*;

verus! {

/// Everything that can make the decode of one object file fail.
///
/// Every error carries enough context (section name, byte offset, symbol
/// address or addend value) to diagnose the input without re-running the
/// decoder. There is no partial success: a single failing section, symbol,
/// instruction or relocation aborts the whole decode.
#[derive(Debug, Clone, PartialEq)]
pub enum ParseError {
    /// The container could not hand out the byte payload of a section that
    /// the decoder selected (rodata, text or a debug section).
    SectionDataUnreadable { name: String },
    /// More than one section carries the read-only-data name prefix; the
    /// decoder refuses to pick one silently.
    MultipleRodataSections,
    /// A sized rodata symbol has no readable name in the container.
    SymbolNameUnreadable { address: u64 },
    /// A sized rodata symbol does not fit inside the rodata section's bytes.
    SymbolOutOfRange { address: u64, size: u64 },
    /// The running total of rodata symbol sizes does not fit in 64 bits.
    RodataTooLarge { address: u64 },
    /// The bytes at this text offset do not decode into a known instruction.
    DecodeFailure { offset: u64, detail: String },
    /// A relocation names a symbol index the container does not have.
    UnknownSymbolIndex { index: u64 },
    /// A relocation points at a text offset where no instruction starts.
    NoInstructionAtOffset { offset: u64 },
    /// The addend recovered from an instruction's immediate matches no
    /// registered rodata symbol address.
    NoLabelForAddend { addend: i64 },
    /// The text section carries relocations but the object has no rodata
    /// section to resolve them against.
    DanglingRelocations,
}

} // verus!
