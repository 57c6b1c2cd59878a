//! PS Vita ARM Thumb binary decompiler: the verified core.
//!
//! The modules hold the binary formats (ELF/SELF program headers, SCE
//! relocations, SCE module info, import and export tables), the NID
//! database, the instruction templates and the analysis and rendering
//! passes that turn a disassembled text segment into pseudo-C.
pub mod bytes;
pub mod disasm;
pub mod analyze;
pub mod elf;
pub mod instructions;
pub mod relocate;
pub mod text;
pub mod translate;
pub mod vita;
pub mod yaml_db;
