//! PS Vita modules: symbols, the SCE module info, the export and import
//! tables, and the NID listing and `db_lookup` YAML that describe them.
use vstd::prelude::*;
use std::collections::HashMap;
use crate::bytes::{le16, le32, get_u16_le, get_u32_le};
use crate::text::{utf8_lossy, lossy_string, hex8_text, dec_text, append_hex8, append_dec, str_eq};
use crate::yaml_db::YamlDb;
use vstd::wrapping::u32_specs::{wrapping_add, wrapping_sub};

verus! {

broadcast use vstd::std_specs::hash::group_hash_axioms;

pub const SYMBOL_SUBROUTINE: u32 = 0x1;

pub const SYMBOL_LABEL: u32 = 0x2;

pub const SYMBOL_STRING: u32 = 0x4;

pub const SYMBOL_EXPORT: u32 = 0x8;

pub const SYMBOL_IMPORT: u32 = 0x10;

/// A named address of the text segment: a subroutine, a label, a string,
/// an export or an import, with the argument count the analysis settles on
/// and how often each count was seen at a call.
#[derive(Debug, Clone)]
pub struct Symbol {
    pub name: String,
    pub sym_type: u32,
    pub n_args: u32,
    pub args_stats: [u32; 11],
}

/// What a symbol holds, as plain values.
pub struct SymbolView {
    pub name: Seq<char>,
    pub sym_type: u32,
    pub n_args: u32,
    pub args_stats: Seq<u32>,
}

impl View for Symbol {
    type V = SymbolView;

    open spec fn view(&self) -> SymbolView {
        SymbolView {
            name: self.name@,
            sym_type: self.sym_type,
            n_args: self.n_args,
            args_stats: self.args_stats@,
        }
    }
}

/// Eleven zero counters.
pub open spec fn zero_stats() -> Seq<u32> {
    Seq::new(11, |i: int| 0u32)
}

/// A fresh symbol of the given name and kind.
pub open spec fn new_symbol(name: Seq<char>, sym_type: u32) -> SymbolView {
    SymbolView { name, sym_type, n_args: 0, args_stats: zero_stats() }
}

/// `m` with a fresh symbol at `addr`, unless `addr` already has one.
pub open spec fn add_symbol(m: Map<u32, SymbolView>, addr: u32, name: Seq<char>, sym_type: u32) -> Map<
    u32,
    SymbolView,
> {
    if m.contains_key(addr) {
        m
    } else {
        m.insert(addr, new_symbol(name, sym_type))
    }
}

/// The symbols of a map, as plain values.
pub open spec fn symbols_view(m: Map<u32, Symbol>) -> Map<u32, SymbolView> {
    m.map_values(|s: Symbol| s@)
}

impl Symbol {
    pub fn is_subroutine(&self) -> (r: bool)
        ensures
            r == (self.sym_type & SYMBOL_SUBROUTINE != 0),
    {
        self.sym_type & SYMBOL_SUBROUTINE != 0
    }

    pub fn is_label(&self) -> (r: bool)
        ensures
            r == (self.sym_type & SYMBOL_LABEL != 0),
    {
        self.sym_type & SYMBOL_LABEL != 0
    }

    pub fn is_import(&self) -> (r: bool)
        ensures
            r == (self.sym_type & SYMBOL_IMPORT != 0),
    {
        self.sym_type & SYMBOL_IMPORT != 0
    }

    pub fn is_export(&self) -> (r: bool)
        ensures
            r == (self.sym_type & SYMBOL_EXPORT != 0),
    {
        self.sym_type & SYMBOL_EXPORT != 0
    }

    /// A symbol of the given name and kind, with no argument statistics.
    pub fn new(name: String, sym_type: u32) -> (r: Symbol)
        ensures
            r@ == new_symbol(name@, sym_type),
    {
        let r = Symbol { name, sym_type, n_args: 0, args_stats: [0u32; 11] };
        assert(r.args_stats@ =~= zero_stats());
        r
    }
}

/// Adds a fresh symbol at `addr` unless `addr` already has one.
pub fn insert_symbol_if_absent(
    symbols: &mut HashMap<u32, Symbol>,
    addr: u32,
    name: String,
    sym_type: u32,
)
    ensures
        symbols_view(final(symbols)@) == add_symbol(symbols_view(old(symbols)@), addr, name@, sym_type),
{
    if !symbols.contains_key(&addr) {
        let s = Symbol::new(name, sym_type);
        symbols.insert(addr, s);
        assert(symbols_view(symbols@) =~= symbols_view(old(symbols)@).insert(addr, new_symbol(name@, sym_type)));
    }
}

/// The SCE module info that stands at the module's entry point.
#[derive(Debug, Copy, Clone)]
pub struct SceModuleInfo {
    pub attr: u16,
    pub ver: u16,
    pub name: [u8; 27],
    pub module_type: u8,
    pub gp: u32,
    pub exp_top: u32,
    pub exp_btm: u32,
    pub imp_top: u32,
    pub imp_btm: u32,
    pub nid: u32,
    pub unk: [u32; 3],
    pub start: u32,
    pub stop: u32,
}

/// Reads the 16-bit little-endian value at `offset`.
pub fn read_u16(data: &[u8], offset: usize) -> (r: u16)
    requires
        offset + 2 <= data.len(),
    ensures
        r == le16(data@, offset as int),
{
    get_u16_le(data, offset)
}

/// Reads the 32-bit little-endian value at `offset`.
pub fn read_u32(data: &[u8], offset: usize) -> (r: u32)
    requires
        offset + 4 <= data.len(),
    ensures
        r == le32(data@, offset as int),
{
    get_u32_le(data, offset)
}

/// Reads the 76-byte module info at `offset`.
pub fn read_sce_module_info(data: &[u8], offset: usize) -> (r: SceModuleInfo)
    requires
        offset + 76 <= data.len(),
    ensures
        r.attr == le16(data@, offset as int),
        r.ver == le16(data@, offset + 2),
        r.name@ == data@.subrange(offset + 4, offset + 31),
        r.module_type == data@[offset + 31],
        r.gp == le32(data@, offset + 32),
        r.exp_top == le32(data@, offset + 36),
        r.exp_btm == le32(data@, offset + 40),
        r.imp_top == le32(data@, offset + 44),
        r.imp_btm == le32(data@, offset + 48),
        r.nid == le32(data@, offset + 52),
        r.unk@ == seq![le32(data@, offset + 56), le32(data@, offset + 60), le32(data@, offset + 64)],
        r.start == le32(data@, offset + 68),
        r.stop == le32(data@, offset + 72),
{
    let mut name = [0u8; 27];
    let mut k: usize = 0;
    while k < 27
        invariant
            k <= 27,
            offset + 76 <= data.len(),
            name@.len() == 27,
            forall|m: int| 0 <= m < k ==> name@[m] == data@[offset + 4 + m],
        decreases 27 - k,
    {
        name[k] = data[offset + 4 + k];
        k = k + 1;
    }
    assert(name@ =~= data@.subrange(offset + 4, offset + 31));
    let unk = [read_u32(data, offset + 56), read_u32(data, offset + 60), read_u32(data, offset + 64)];
    assert(unk@ =~= seq![le32(data@, offset + 56), le32(data@, offset + 60), le32(data@, offset + 64)]);
    SceModuleInfo {
        attr: read_u16(data, offset),
        ver: read_u16(data, offset + 2),
        name,
        module_type: data[offset + 31],
        gp: read_u32(data, offset + 32),
        exp_top: read_u32(data, offset + 36),
        exp_btm: read_u32(data, offset + 40),
        imp_top: read_u32(data, offset + 44),
        imp_btm: read_u32(data, offset + 48),
        nid: read_u32(data, offset + 52),
        unk,
        start: read_u32(data, offset + 68),
        stop: read_u32(data, offset + 72),
    }
}

/// Whether a byte is printable ASCII.
pub open spec fn is_printable(b: u8) -> bool {
    0x20 <= b <= 0x7E
}

/// Whether `bytes` looks like a module name: it starts with a printable
/// character (or is empty) and holds only printable characters and NULs.
pub open spec fn spec_is_ascii_name(bytes: Seq<u8>) -> bool {
    &&& (bytes.len() == 0 || is_printable(bytes[0]))
    &&& forall|k: int| 0 <= k < bytes.len() ==> bytes[k] == 0 || is_printable(#[trigger] bytes[k])
}

/// Whether `bytes` looks like a module name: it starts with a printable
/// character (or is empty) and holds only printable characters and NULs.
pub fn is_ascii_name(bytes: &[u8]) -> (r: bool)
    ensures
        r == spec_is_ascii_name(bytes@),
{
    if bytes.len() > 0 {
        let first = bytes[0];
        if first == 0 || !(0x20 <= first && first <= 0x7E) {
            return false;
        }
    }
    let mut k: usize = 0;
    while k < bytes.len()
        invariant
            k <= bytes@.len(),
            bytes@.len() == 0 || is_printable(bytes@[0]),
            forall|m: int| 0 <= m < k ==> bytes@[m] == 0 || is_printable(#[trigger] bytes@[m]),
        decreases bytes@.len() - k,
    {
        let b = bytes[k];
        if !(b == 0 || (0x20 <= b && b <= 0x7E)) {
            return false;
        }
        k = k + 1;
    }
    true
}

/// The byte pattern that ends the module's code in a stripped ELF.
pub open spec fn entry_magic() -> Seq<u8> {
    seq![0xE0u8, 0xE3, 0x1E, 0xFF, 0x2F, 0xE1, 0x00, 0x00, 0xA0, 0xE1, 0x00, 0x00, 0x00, 0x00, 0x00, 0x00]
}

/// Whether the magic pattern starts at `ep`.
pub open spec fn magic_at(text: Seq<u8>, ep: int) -> bool {
    ep + 16 <= text.len() && text.subrange(ep, ep + 16) == entry_magic()
}

/// The last position below `ep`, and not below 16, where the magic pattern
/// starts.
pub open spec fn magic_search(text: Seq<u8>, ep: int) -> Option<int>
    decreases ep,
{
    if ep <= 16 {
        None
    } else if magic_at(text, ep - 1) {
        Some(ep - 1)
    } else {
        magic_search(text, ep - 1)
    }
}

/// Where the module info stands when it is found by the magic pattern:
/// two bytes before the pattern ends; the text address where no pattern
/// is found.
pub open spec fn spec_find_by_magic(text: Seq<u8>, text_addr: u32) -> u32 {
    match magic_search(text, text.len() as int) {
        Some(ep) => wrapping_add(text_addr, (ep + 14) as u32),
        None => text_addr,
    }
}

/// The address of the module info: `initial_entry` where the bytes there
/// hold a module name, else the address that the magic pattern gives.
pub open spec fn spec_find_entry_point(text: Seq<u8>, text_addr: u32, initial_entry: u32) -> u32 {
    let off = wrapping_sub(initial_entry, text_addr) as int;
    if off + 27 > text.len() {
        spec_find_by_magic(text, text_addr)
    } else if spec_is_ascii_name(text.subrange(off + 4, off + 31)) {
        initial_entry
    } else {
        spec_find_by_magic(text, text_addr)
    }
}

/// Whether the entry point check reads past the text segment: the name is
/// 27 bytes at offset 4, but only 27 bytes past the entry are checked.
pub open spec fn entry_name_overruns(text: Seq<u8>, text_addr: u32, initial_entry: u32) -> bool {
    let off = wrapping_sub(initial_entry, text_addr) as int;
    off + 27 <= text.len() && off + 31 > text.len()
}

/// Finds the module info by the magic pattern, searching from the end.
pub fn find_by_magic(text_seg: &[u8], text_addr: u32) -> (r: u32)
    ensures
        r == spec_find_by_magic(text_seg@, text_addr),
{
    let check: [u8; 16] = [
        0xE0,
        0xE3,
        0x1E,
        0xFF,
        0x2F,
        0xE1,
        0x00,
        0x00,
        0xA0,
        0xE1,
        0x00,
        0x00,
        0x00,
        0x00,
        0x00,
        0x00,
    ];
    assert(check@ =~= entry_magic());
    let len = text_seg.len();
    let mut ep = len;
    while ep > 16
        invariant
            ep <= len == text_seg@.len(),
            check@ == entry_magic(),
            magic_search(text_seg@, len as int) == magic_search(text_seg@, ep as int),
        decreases ep,
    {
        ep = ep - 1;
        if len - ep >= 16 {
            let mut k: usize = 0;
            let mut same = true;
            while k < 16
                invariant
                    k <= 16,
                    ep + 16 <= text_seg.len(),
                    check@ == entry_magic(),
                    same == (forall|m: int| 0 <= m < k ==> text_seg@[ep + m] == check@[m]),
                decreases 16 - k,
            {
                if text_seg[ep + k] != check[k] {
                    same = false;
                }
                k = k + 1;
            }
            if same {
                assert(text_seg@.subrange(ep as int, ep + 16) =~= entry_magic());
                return text_addr.wrapping_add(#[verifier::truncate] ((ep + 14) as u32));
            } else {
                assert(!magic_at(text_seg@, ep as int)) by {
                    if magic_at(text_seg@, ep as int) {
                        assert(forall|m: int|
                            0 <= m < 16 ==> text_seg@[ep + m] == #[trigger] text_seg@.subrange(
                                ep as int,
                                ep + 16,
                            )[m]);
                    }
                }
            }
        }
    }
    text_addr
}

/// Finds the address of the module info: the initial entry point where a
/// module name stands there, else by the magic pattern.
pub fn find_entry_point(text_seg: &[u8], text_addr: u32, initial_entry: u32) -> (r: u32)
    requires
        !entry_name_overruns(text_seg@, text_addr, initial_entry),
    ensures
        r == spec_find_entry_point(text_seg@, text_addr, initial_entry),
{
    let offset = initial_entry.wrapping_sub(text_addr) as usize;
    if text_seg.len() < 27 || offset > text_seg.len() - 27 {
        return find_by_magic(text_seg, text_addr);
    }
    let name_bytes = vstd::slice::slice_subrange(text_seg, offset + 4, offset + 31);
    if is_ascii_name(name_bytes) {
        return initial_entry;
    }
    find_by_magic(text_seg, text_addr)
}

/// The NUL-terminated string that starts at `p` (empty where `p` lies
/// outside the segment).
pub open spec fn cstr_from(seg: Seq<u8>, p: int) -> Seq<u8>
    decreases seg.len() - p,
{
    if p < 0 || p >= seg.len() || seg[p] == 0 {
        seq![]
    } else {
        seq![seg[p]] + cstr_from(seg, p + 1)
    }
}

/// The NUL-terminated string at virtual address `addr` of the text
/// segment.
pub open spec fn spec_read_str_at(seg: Seq<u8>, text_addr: u32, addr: u32) -> Seq<u8> {
    cstr_from(seg, wrapping_sub(addr, text_addr) as int)
}

/// Reads the NUL-terminated string at virtual address `addr` of the text
/// segment.
pub fn read_str_at(seg: &[u8], text_addr: u32, addr: u32) -> (r: Vec<u8>)
    ensures
        r@ == spec_read_str_at(seg@, text_addr, addr),
{
    let offset = addr.wrapping_sub(text_addr) as usize;
    let mut result: Vec<u8> = Vec::new();
    let mut p = offset;
    while p < seg.len() && seg[p] != 0
        invariant
            offset <= p,
            result@ + cstr_from(seg@, p as int) == cstr_from(seg@, offset as int),
        decreases seg@.len() - p,
    {
        let ghost before = result@;
        result.push(seg[p]);
        assert(result@ + cstr_from(seg@, p + 1) =~= before + cstr_from(seg@, p as int));
        p = p + 1;
    }
    assert(result@ + cstr_from(seg@, p as int) =~= result@);
    result
}


/// The state that the table walks build: the symbols found so far, the NID
/// listing, the `db_lookup` YAML and the running entry number.
pub struct ModState {
    pub symbols: Map<u32, SymbolView>,
    pub nids: Seq<char>,
    pub yml: Seq<char>,
    pub x: u32,
}

/// The name a system library export (one without a library name) has.
pub open spec fn syslib_name(nid: u32) -> Seq<char> {
    if nid == 0x70FBA1E7 {
        "module_process_param"@
    } else if nid == 0x6C2224BA {
        "module_info"@
    } else if nid == 0x935CD196 {
        "module_start"@
    } else if nid == 0x79F8E492 {
        "module_stop"@
    } else if nid == 0x913482A9 {
        "module_exit"@
    } else {
        "unknown"@
    }
}

/// One line of the NID listing.
pub open spec fn nid_line(x: u32, label: Seq<char>, nid: u32, addr: u32, text_addr: u32) -> Seq<char> {
    "//"@ + dec_text(x as nat) + ": "@ + label + " "@ + hex8_text(nid) + " @OFF: "@ + hex8_text(
        wrapping_sub(addr, text_addr),
    ) + " VADDR: "@ + hex8_text(addr) + "\n"@
}

/// The generated name `<lib>_<NID>`.
pub open spec fn gen_name(lib: Seq<char>, nid: u32) -> Seq<char> {
    lib + "_"@ + hex8_text(nid)
}

/// Whether the database names `nid` of `lib` (with a name other than
/// `unknown`).
pub open spec fn db_knows(db: Map<(Seq<char>, u32), Seq<char>>, lib: Seq<char>, nid: u32) -> bool {
    db.contains_key((lib, nid)) && db[(lib, nid)] != "unknown"@
}

/// The symbol name of an export.
pub open spec fn export_name(db: Map<(Seq<char>, u32), Seq<char>>, lib: Option<Seq<char>>, nid: u32) -> Seq<char> {
    match lib {
        Some(l) => if db_knows(db, l, nid) {
            db[(l, nid)]
        } else {
            gen_name(l, nid)
        },
        None => syslib_name(nid),
    }
}

/// The label an export has in the NID listing.
pub open spec fn export_label(db: Map<(Seq<char>, u32), Seq<char>>, lib: Option<Seq<char>>, nid: u32) -> Seq<char> {
    match lib {
        Some(l) => if db_knows(db, l, nid) {
            db[(l, nid)]
        } else {
            l + "_"@ + gen_name(l, nid)
        },
        None => syslib_name(nid),
    }
}

/// The state after one export (NID `nid` at address `addr`).
pub open spec fn export_entry(
    st: ModState,
    db: Map<(Seq<char>, u32), Seq<char>>,
    lib: Option<Seq<char>>,
    nid: u32,
    addr: u32,
    text_addr: u32,
) -> ModState {
    let name = export_name(db, lib, nid);
    let nids1 = st.nids + nid_line(st.x, export_label(db, lib, nid), nid, addr, text_addr);
    let nids2 = if addr < text_addr {
        nids1 + "///Something is wrong with NID "@ + name + "\n"@
    } else {
        nids1
    };
    let yml = match lib {
        Some(l) => st.yml + "          "@ + gen_name(l, nid) + ": 0x"@ + hex8_text(nid) + "\n"@,
        None => st.yml,
    };
    ModState {
        symbols: add_symbol(st.symbols, addr & 0xFFFF_FFFEu32, name, SYMBOL_SUBROUTINE | SYMBOL_EXPORT),
        nids: nids2,
        yml,
        x: wrapping_add(st.x, 1),
    }
}

/// The state after one import (NID `nid`, stub at address `addr`).
pub open spec fn import_entry(
    st: ModState,
    db: Map<(Seq<char>, u32), Seq<char>>,
    lib: Seq<char>,
    nid: u32,
    addr: u32,
    text_addr: u32,
) -> ModState {
    let name = if db.contains_key((lib, nid)) {
        db[(lib, nid)]
    } else {
        gen_name(lib, nid)
    };
    ModState {
        symbols: add_symbol(st.symbols, addr, name, SYMBOL_SUBROUTINE | SYMBOL_IMPORT),
        nids: st.nids + nid_line(st.x, name, nid, addr, text_addr),
        yml: st.yml,
        x: wrapping_add(st.x, 1),
    }
}

/// The entries `j..count` of an export table whose NID and entry tables
/// start at offsets `nid_off` and `ent_off`; `None` where one lies past
/// the segment.
pub open spec fn export_entries(
    text: Seq<u8>,
    text_addr: u32,
    db: Map<(Seq<char>, u32), Seq<char>>,
    lib: Option<Seq<char>>,
    nid_off: int,
    ent_off: int,
    j: int,
    count: int,
    st: ModState,
) -> Option<ModState>
    decreases count - j,
{
    if j >= count {
        Some(st)
    } else if nid_off + 4 * j + 4 > text.len() || ent_off + 4 * j + 4 > text.len() {
        None
    } else {
        export_entries(
            text,
            text_addr,
            db,
            lib,
            nid_off,
            ent_off,
            j + 1,
            count,
            export_entry(st, db, lib, le32(text, nid_off + 4 * j), le32(text, ent_off + 4 * j), text_addr),
        )
    }
}

/// The entries `j..count` of an import table; `None` where one lies past
/// the segment.
pub open spec fn import_entries(
    text: Seq<u8>,
    text_addr: u32,
    db: Map<(Seq<char>, u32), Seq<char>>,
    lib: Seq<char>,
    nid_off: int,
    ent_off: int,
    j: int,
    count: int,
    st: ModState,
) -> Option<ModState>
    decreases count - j,
{
    if j >= count {
        Some(st)
    } else if nid_off + 4 * j + 4 > text.len() || ent_off + 4 * j + 4 > text.len() {
        None
    } else {
        import_entries(
            text,
            text_addr,
            db,
            lib,
            nid_off,
            ent_off,
            j + 1,
            count,
            import_entry(st, db, lib, le32(text, nid_off + 4 * j), le32(text, ent_off + 4 * j), text_addr),
        )
    }
}

/// Whether a virtual address lies in the text segment.
pub open spec fn in_text(addr: u32, text_addr: u32, text_size: u32) -> bool {
    addr >= text_addr && addr < wrapping_add(text_addr, text_size)
}

/// The library name at a virtual address of the text segment.
pub open spec fn lib_name_at(text: Seq<u8>, text_addr: u32, addr: u32) -> Seq<char> {
    utf8_lossy(spec_read_str_at(text, text_addr, addr))
}

/// The listing and YAML header of an export library.
pub open spec fn export_header(st: ModState, lib: Seq<char>, module_nid: u32, attribute: u16) -> ModState {
    ModState {
        nids: st.nids + "\n//"@ + lib + ":"@ + hex8_text(module_nid) + "\n"@,
        yml: st.yml + "      "@ + lib + ":\n"@ + "        nid: 0x"@ + hex8_text(module_nid) + "\n"@ + (
        if attribute & 0x4000 != 0 {
            "        kernel: false\n"@
        } else {
            "        kernel: true\n"@
        }) + "        functions:\n"@,
        ..st
    }
}

/// The export tables from offset `i` up to `btm`; `None` where a read lies
/// past the segment.
pub open spec fn export_tables(
    text: Seq<u8>,
    text_addr: u32,
    text_size: u32,
    db: Map<(Seq<char>, u32), Seq<char>>,
    i: int,
    btm: int,
    st: ModState,
) -> Option<ModState>
    decreases text.len() - i,
{
    if !(0 <= i && i < btm && i < text.len()) {
        Some(st)
    } else if i + 2 > text.len() {
        None
    } else {
        let size = le16(text, i) as int;
        if size == 0 || i + size > text.len() {
            Some(st)
        } else if i + 32 > text.len() {
            None
        } else {
            let attribute = le16(text, i + 4);
            let count = le16(text, i + 6) as int + le32(text, i + 8) as int;
            let module_nid = le32(text, i + 16);
            let lib_vaddr = le32(text, i + 20);
            let nid_off = wrapping_sub(le32(text, i + 24), text_addr) as int;
            let ent_off = wrapping_sub(le32(text, i + 28), text_addr) as int;
            let has_lib = in_text(lib_vaddr, text_addr, text_size);
            let lib = if has_lib {
                Some(lib_name_at(text, text_addr, lib_vaddr))
            } else {
                None
            };
            let st1 = if has_lib {
                export_header(st, lib_name_at(text, text_addr, lib_vaddr), module_nid, attribute)
            } else {
                st
            };
            match export_entries(text, text_addr, db, lib, nid_off, ent_off, 0, count, st1) {
                None => None,
                Some(st2) => export_tables(text, text_addr, text_size, db, i + size, btm, st2),
            }
        }
    }
}

/// The import tables from offset `i` up to `btm` (tables of size 0x34 are
/// the 2.xx layout, all others the 3.xx layout); `None` where a read lies
/// past the segment.
pub open spec fn import_tables(
    text: Seq<u8>,
    text_addr: u32,
    text_size: u32,
    db: Map<(Seq<char>, u32), Seq<char>>,
    i: int,
    btm: int,
    st: ModState,
) -> Option<ModState>
    decreases text.len() - i,
{
    if !(0 <= i && i < btm && i < text.len()) {
        Some(st)
    } else if i + 2 > text.len() {
        None
    } else {
        let size = le16(text, i) as int;
        if size == 0 || i + size > text.len() {
            Some(st)
        } else if (size == 0x34 && i + 36 > text.len()) || (size != 0x34 && i + 28 > text.len()) {
            None
        } else {
            let lib_vaddr = if size == 0x34 { le32(text, i + 20) } else { le32(text, i + 16) };
            let nid_tab = if size == 0x34 { le32(text, i + 28) } else { le32(text, i + 20) };
            let ent_tab = if size == 0x34 { le32(text, i + 32) } else { le32(text, i + 24) };
            let count = le16(text, i + 6) as int;
            let module_nid = if size == 0x34 { le32(text, i + 16) } else { le32(text, i + 12) };
            if in_text(lib_vaddr, text_addr, text_size) {
                let lib = lib_name_at(text, text_addr, lib_vaddr);
                let st1 = ModState {
                    nids: st.nids + "\n//"@ + lib + ":"@ + hex8_text(module_nid) + "\n"@,
                    ..st
                };
                match import_entries(
                    text,
                    text_addr,
                    db,
                    lib,
                    wrapping_sub(nid_tab, text_addr) as int,
                    wrapping_sub(ent_tab, text_addr) as int,
                    0,
                    count,
                    st1,
                ) {
                    None => None,
                    Some(st2) => import_tables(text, text_addr, text_size, db, i + size, btm, st2),
                }
            } else {
                import_tables(text, text_addr, text_size, db, i + size, btm, st)
            }
        }
    }
}

/// The exec state of the table walks.
struct ModBuilder {
    symbols: HashMap<u32, Symbol>,
    nids: String,
    yml: String,
    x: u32,
}

impl View for ModBuilder {
    type V = ModState;

    closed spec fn view(&self) -> ModState {
        ModState { symbols: symbols_view(self.symbols@), nids: self.nids@, yml: self.yml@, x: self.x }
    }
}

fn append_nid_line(out: &mut String, x: u32, label: &str, nid: u32, addr: u32, text_addr: u32)
    ensures
        final(out)@ == old(out)@ + nid_line(x, label@, nid, addr, text_addr),
{
    out.append("//");
    append_dec(out, x);
    out.append(": ");
    out.append(label);
    out.append(" ");
    append_hex8(out, nid);
    out.append(" @OFF: ");
    append_hex8(out, addr.wrapping_sub(text_addr));
    out.append(" VADDR: ");
    append_hex8(out, addr);
    out.append("\n");
    assert(final(out)@ =~= old(out)@ + nid_line(x, label@, nid, addr, text_addr));
}

fn make_gen_name(lib: &String, nid: u32) -> (r: String)
    ensures
        r@ == gen_name(lib@, nid),
{
    let mut r = lib.clone();
    r.append("_");
    append_hex8(&mut r, nid);
    r
}

fn syslib_name_str(nid: u32) -> (r: &'static str)
    ensures
        r@ == syslib_name(nid),
{
    if nid == 0x70FBA1E7 {
        "module_process_param"
    } else if nid == 0x6C2224BA {
        "module_info"
    } else if nid == 0x935CD196 {
        "module_start"
    } else if nid == 0x79F8E492 {
        "module_stop"
    } else if nid == 0x913482A9 {
        "module_exit"
    } else {
        "unknown"
    }
}

fn add_export_entry(
    b: &mut ModBuilder,
    db: &YamlDb,
    lib: Option<&String>,
    nid: u32,
    addr: u32,
    text_addr: u32,
)
    ensures
        final(b)@ == export_entry(
            old(b)@,
            db@,
            match lib {
                Some(l) => Some(l@),
                None => None,
            },
            nid,
            addr,
            text_addr,
        ),
{
    let ghost lib_v = match lib {
        Some(l) => Some(l@),
        None => None::<Seq<char>>,
    };
    let name: String;
    match lib {
        Some(l) => {
            let found = db.lookup(l.as_str(), nid);
            let known = match found {
                Some(f) => !str_eq(f, "unknown"),
                None => false,
            };
            if known {
                let f = found.unwrap();
                append_nid_line(&mut b.nids, b.x, f, nid, addr, text_addr);
                name = String::from_str(f);
            } else {
                let g = make_gen_name(l, nid);
                let mut label = l.clone();
                label.append("_");
                label.append(g.as_str());
                append_nid_line(&mut b.nids, b.x, label.as_str(), nid, addr, text_addr);
                name = g;
            }
            b.yml.append("          ");
            b.yml.append(l.as_str());
            b.yml.append("_");
            append_hex8(&mut b.yml, nid);
            b.yml.append(": 0x");
            append_hex8(&mut b.yml, nid);
            b.yml.append("\n");
        },
        None => {
            let s = syslib_name_str(nid);
            append_nid_line(&mut b.nids, b.x, s, nid, addr, text_addr);
            name = String::from_str(s);
        },
    }
    assert(name@ == export_name(db@, lib_v, nid));
    if addr < text_addr {
        b.nids.append("///Something is wrong with NID ");
        b.nids.append(name.as_str());
        b.nids.append("\n");
    }
    insert_symbol_if_absent(&mut b.symbols, addr & 0xFFFF_FFFE, name, SYMBOL_SUBROUTINE | SYMBOL_EXPORT);
    b.x = b.x.wrapping_add(1);
    assert(b.nids@ =~= export_entry(old(b)@, db@, lib_v, nid, addr, text_addr).nids);
    assert(b.yml@ =~= export_entry(old(b)@, db@, lib_v, nid, addr, text_addr).yml);
}

fn add_import_entry(b: &mut ModBuilder, db: &YamlDb, lib: &String, nid: u32, addr: u32, text_addr: u32)
    ensures
        final(b)@ == import_entry(old(b)@, db@, lib@, nid, addr, text_addr),
{
    let name = match db.lookup(lib.as_str(), nid) {
        Some(f) => String::from_str(f),
        None => make_gen_name(lib, nid),
    };
    append_nid_line(&mut b.nids, b.x, name.as_str(), nid, addr, text_addr);
    insert_symbol_if_absent(&mut b.symbols, addr, name, SYMBOL_SUBROUTINE | SYMBOL_IMPORT);
    b.x = b.x.wrapping_add(1);
}

fn walk_export_entries(
    text: &[u8],
    text_addr: u32,
    db: &YamlDb,
    lib: Option<&String>,
    nid_off: u64,
    ent_off: u64,
    count: u64,
    b: &mut ModBuilder,
) -> (ok: bool)
    requires
        nid_off <= u32::MAX,
        ent_off <= u32::MAX,
        count <= 0x1_0001_0000,
    ensures
        ({
            let lib_v = match lib {
                Some(l) => Some(l@),
                None => None,
            };
            let r = export_entries(
                text@,
                text_addr,
                db@,
                lib_v,
                nid_off as int,
                ent_off as int,
                0,
                count as int,
                old(b)@,
            );
            &&& ok == r is Some
            &&& ok ==> r == Some(final(b)@)
        }),
{
    let ghost lib_v = match lib {
        Some(l) => Some(l@),
        None => None::<Seq<char>>,
    };
    let len = text.len() as u64;
    let mut j: u64 = 0;
    while j < count
        invariant
            j <= count <= 0x1_0001_0000,
            nid_off <= u32::MAX,
            ent_off <= u32::MAX,
            len == text.len() as u64,
            text@.len() == text.len(),
            lib_v == (match lib {
                Some(l) => Some(l@),
                None => None::<Seq<char>>,
            }),
            export_entries(
                text@,
                text_addr,
                db@,
                lib_v,
                nid_off as int,
                ent_off as int,
                0,
                count as int,
                old(b)@,
            ) == export_entries(
                text@,
                text_addr,
                db@,
                lib_v,
                nid_off as int,
                ent_off as int,
                j as int,
                count as int,
                b@,
            ),
        decreases count - j,
    {
        let a = nid_off + 4 * j;
        let e = ent_off + 4 * j;
        if a + 4 > len || e + 4 > len {
            return false;
        }
        let nid = get_u32_le(text, a as usize);
        let addr = get_u32_le(text, e as usize);
        assert(nid == le32(text@, nid_off + 4 * j) && addr == le32(text@, ent_off + 4 * j));
        let ghost before = b@;
        add_export_entry(b, db, lib, nid, addr, text_addr);
        assert(export_entries(text@, text_addr, db@, lib_v, nid_off as int, ent_off as int, j as int, count as int, before)
            == export_entries(text@, text_addr, db@, lib_v, nid_off as int, ent_off as int, j + 1, count as int, b@));
        j = j + 1;
    }
    true
}

fn walk_import_entries(
    text: &[u8],
    text_addr: u32,
    db: &YamlDb,
    lib: &String,
    nid_off: u64,
    ent_off: u64,
    count: u64,
    b: &mut ModBuilder,
) -> (ok: bool)
    requires
        nid_off <= u32::MAX,
        ent_off <= u32::MAX,
        count <= 0x1_0001_0000,
    ensures
        ({
            let r = import_entries(
                text@,
                text_addr,
                db@,
                lib@,
                nid_off as int,
                ent_off as int,
                0,
                count as int,
                old(b)@,
            );
            &&& ok == r is Some
            &&& ok ==> r == Some(final(b)@)
        }),
{
    let len = text.len() as u64;
    let mut j: u64 = 0;
    while j < count
        invariant
            j <= count <= 0x1_0001_0000,
            nid_off <= u32::MAX,
            ent_off <= u32::MAX,
            len == text.len() as u64,
            text@.len() == text.len(),
            import_entries(
                text@,
                text_addr,
                db@,
                lib@,
                nid_off as int,
                ent_off as int,
                0,
                count as int,
                old(b)@,
            ) == import_entries(
                text@,
                text_addr,
                db@,
                lib@,
                nid_off as int,
                ent_off as int,
                j as int,
                count as int,
                b@,
            ),
        decreases count - j,
    {
        let a = nid_off + 4 * j;
        let e = ent_off + 4 * j;
        if a + 4 > len || e + 4 > len {
            return false;
        }
        let nid = get_u32_le(text, a as usize);
        let addr = get_u32_le(text, e as usize);
        assert(nid == le32(text@, nid_off + 4 * j) && addr == le32(text@, ent_off + 4 * j));
        let ghost before = b@;
        add_import_entry(b, db, lib, nid, addr, text_addr);
        assert(import_entries(text@, text_addr, db@, lib@, nid_off as int, ent_off as int, j as int, count as int, before)
            == import_entries(text@, text_addr, db@, lib@, nid_off as int, ent_off as int, j + 1, count as int, b@));
        j = j + 1;
    }
    true
}


fn append_export_header(b: &mut ModBuilder, lib: &String, module_nid: u32, attribute: u16)
    ensures
        final(b)@ == export_header(old(b)@, lib@, module_nid, attribute),
{
    b.nids.append("\n//");
    b.nids.append(lib.as_str());
    b.nids.append(":");
    append_hex8(&mut b.nids, module_nid);
    b.nids.append("\n");
    b.yml.append("      ");
    b.yml.append(lib.as_str());
    b.yml.append(":\n");
    b.yml.append("        nid: 0x");
    append_hex8(&mut b.yml, module_nid);
    b.yml.append("\n");
    if attribute & 0x4000 != 0 {
        b.yml.append("        kernel: false\n");
    } else {
        b.yml.append("        kernel: true\n");
    }
    b.yml.append("        functions:\n");
    assert(b@ =~= export_header(old(b)@, lib@, module_nid, attribute));
}

fn walk_export_tables(
    text: &[u8],
    text_addr: u32,
    text_size: u32,
    db: &YamlDb,
    top: u32,
    btm: u32,
    b: &mut ModBuilder,
) -> (ok: bool)
    ensures
        ({
            let r = export_tables(text@, text_addr, text_size, db@, top as int, btm as int, old(b)@);
            &&& ok == r is Some
            &&& ok ==> r == Some(final(b)@)
        }),
{
    let len = text.len();
    let mut i = top as usize;
    while i < btm as usize && i < len
        invariant
            len == text.len(),
            len == text@.len(),
            export_tables(text@, text_addr, text_size, db@, top as int, btm as int, old(b)@)
                == export_tables(text@, text_addr, text_size, db@, i as int, btm as int, b@),
        ensures
            export_tables(text@, text_addr, text_size, db@, top as int, btm as int, old(b)@) == Some(
                b@,
            ),
        decreases len - i,
    {
        if len - i < 2 {
            return false;
        }
        let size = get_u16_le(text, i) as usize;
        if size == 0 || size > len - i {
            break ;
        }
        if len - i < 32 {
            return false;
        }
        let attribute = get_u16_le(text, i + 4);
        let num_functions = get_u16_le(text, i + 6) as u64;
        let num_vars = get_u32_le(text, i + 8) as u64;
        let module_nid = get_u32_le(text, i + 16);
        let lib_vaddr = get_u32_le(text, i + 20);
        let nid_tab = get_u32_le(text, i + 24);
        let ent_tab = get_u32_le(text, i + 28);
        let nid_off = nid_tab.wrapping_sub(text_addr) as u64;
        let ent_off = ent_tab.wrapping_sub(text_addr) as u64;
        let has_lib = lib_vaddr >= text_addr && lib_vaddr < text_addr.wrapping_add(text_size);
        let ghost before = b@;
        let ok = if has_lib {
            let raw = read_str_at(text, text_addr, lib_vaddr);
            let lib = lossy_string(raw.as_slice());
            append_export_header(b, &lib, module_nid, attribute);
            walk_export_entries(
                text,
                text_addr,
                db,
                Some(&lib),
                nid_off,
                ent_off,
                num_functions + num_vars,
                b,
            )
        } else {
            walk_export_entries(
                text,
                text_addr,
                db,
                None,
                nid_off,
                ent_off,
                num_functions + num_vars,
                b,
            )
        };
        if !ok {
            return false;
        }
        i = i + size;
    }
    true
}

fn walk_import_tables(
    text: &[u8],
    text_addr: u32,
    text_size: u32,
    db: &YamlDb,
    top: u32,
    btm: u32,
    b: &mut ModBuilder,
) -> (ok: bool)
    ensures
        ({
            let r = import_tables(text@, text_addr, text_size, db@, top as int, btm as int, old(b)@);
            &&& ok == r is Some
            &&& ok ==> r == Some(final(b)@)
        }),
{
    let len = text.len();
    let mut i = top as usize;
    while i < btm as usize && i < len
        invariant
            len == text.len(),
            len == text@.len(),
            import_tables(text@, text_addr, text_size, db@, top as int, btm as int, old(b)@)
                == import_tables(text@, text_addr, text_size, db@, i as int, btm as int, b@),
        ensures
            import_tables(text@, text_addr, text_size, db@, top as int, btm as int, old(b)@) == Some(
                b@,
            ),
        decreases len - i,
    {
        if len - i < 2 {
            return false;
        }
        let size = get_u16_le(text, i) as usize;
        if size == 0 || size > len - i {
            break ;
        }
        if (size == 0x34 && len - i < 36) || (size != 0x34 && len - i < 28) {
            return false;
        }
        let lib_vaddr: u32;
        let nid_tab: u32;
        let ent_tab: u32;
        let module_nid: u32;
        if size == 0x34 {
            lib_vaddr = get_u32_le(text, i + 20);
            nid_tab = get_u32_le(text, i + 28);
            ent_tab = get_u32_le(text, i + 32);
            module_nid = get_u32_le(text, i + 16);
        } else {
            lib_vaddr = get_u32_le(text, i + 16);
            nid_tab = get_u32_le(text, i + 20);
            ent_tab = get_u32_le(text, i + 24);
            module_nid = get_u32_le(text, i + 12);
        }
        let num_functions = get_u16_le(text, i + 6) as u64;
        if lib_vaddr >= text_addr && lib_vaddr < text_addr.wrapping_add(text_size) {
            let raw = read_str_at(text, text_addr, lib_vaddr);
            let lib = lossy_string(raw.as_slice());
            b.nids.append("\n//");
            b.nids.append(lib.as_str());
            b.nids.append(":");
            append_hex8(&mut b.nids, module_nid);
            b.nids.append("\n");
            let ok = walk_import_entries(
                text,
                text_addr,
                db,
                &lib,
                nid_tab.wrapping_sub(text_addr) as u64,
                ent_tab.wrapping_sub(text_addr) as u64,
                num_functions,
                b,
            );
            if !ok {
                return false;
            }
        }
        i = i + size;
    }
    true
}

/// What the analysis of a module finds: its symbols (exports and imports),
/// the offset of its module info in the text segment, its name and NID,
/// and the firmware version it was analysed for.
pub struct ModuleAnalysis {
    pub symbols: HashMap<u32, Symbol>,
    pub mod_info_offset: u32,
    pub module_name: String,
    pub module_nid: u32,
    pub opt_ver: String,
}

/// The analysis of a module together with the two files it describes the
/// module in: the NID listing and the `db_lookup` YAML.
pub struct ModuleReport {
    pub analysis: ModuleAnalysis,
    pub nids_text: String,
    pub yml_text: String,
}

/// Why a module cannot be analysed: a table or the module info points
/// past the end of the text segment.
#[derive(Debug, Clone, Copy, PartialEq, Eq)]
pub enum ModuleError {
    OutOfBounds,
}

/// What the analysis of a module finds, as plain values.
pub struct ModuleResult {
    pub symbols: Map<u32, SymbolView>,
    pub mod_info_offset: u32,
    pub module_name: Seq<char>,
    pub module_nid: u32,
    pub opt_ver: Seq<char>,
    pub nids: Seq<char>,
    pub yml: Seq<char>,
}

/// `s` without its trailing zero bytes.
pub open spec fn trim_zeros(s: Seq<u8>) -> Seq<u8>
    decreases s.len(),
{
    if s.len() > 0 && s.last() == 0 {
        trim_zeros(s.drop_last())
    } else {
        s
    }
}

/// The head of the `db_lookup` YAML.
pub open spec fn yml_header(opt_ver: Seq<char>, module_name: Seq<char>, nid: u32) -> Seq<char> {
    "version: 0x2\nfirmware: "@ + opt_ver + "\nmodules:\n  "@ + module_name + ":\n     nid: 0x"@
        + hex8_text(nid) + "\n     libraries:\n"@
}

/// The analysis of a module: the module info is found (at the initial
/// entry point or by the magic pattern), then the export tables and the
/// import tables it points to are walked. `None` where the walk reads past
/// the end of the text segment.
pub open spec fn spec_analyze_module(
    text: Seq<u8>,
    text_addr: u32,
    text_size: u32,
    initial_entry: u32,
    db: Map<(Seq<char>, u32), Seq<char>>,
    opt_ver: Seq<char>,
) -> Option<ModuleResult> {
    if entry_name_overruns(text, text_addr, initial_entry) {
        None
    } else {
        let entry = spec_find_entry_point(text, text_addr, initial_entry);
        let mo = wrapping_sub(entry, text_addr);
        if mo + 76 > text.len() {
            None
        } else {
            let name = utf8_lossy(trim_zeros(text.subrange(mo + 4, mo + 31)));
            let nid = le32(text, mo + 52);
            let st0 = ModState {
                symbols: Map::empty(),
                nids: "//EXPORTS:\n"@,
                yml: yml_header(opt_ver, name, nid),
                x: 0,
            };
            match export_tables(text, text_addr, text_size, db, le32(text, mo + 36) as int, le32(text, mo + 40) as int, st0) {
                None => None,
                Some(st1) => match import_tables(
                    text,
                    text_addr,
                    text_size,
                    db,
                    le32(text, mo + 44) as int,
                    le32(text, mo + 48) as int,
                    ModState { nids: st1.nids + "//IMPORTS:\n"@, x: 0, ..st1 },
                ) {
                    None => None,
                    Some(st2) => Some(
                        ModuleResult {
                            symbols: st2.symbols,
                            mod_info_offset: mo,
                            module_name: name,
                            module_nid: nid,
                            opt_ver,
                            nids: st2.nids,
                            yml: st2.yml,
                        },
                    ),
                },
            }
        }
    }
}

/// The plain values of a report.
pub open spec fn report_view(r: ModuleReport) -> ModuleResult {
    ModuleResult {
        symbols: symbols_view(r.analysis.symbols@),
        mod_info_offset: r.analysis.mod_info_offset,
        module_name: r.analysis.module_name@,
        module_nid: r.analysis.module_nid,
        opt_ver: r.analysis.opt_ver@,
        nids: r.nids_text@,
        yml: r.yml_text@,
    }
}

fn trimmed_len(name: &[u8]) -> (n: usize)
    ensures
        n <= name@.len(),
        name@.take(n as int) == trim_zeros(name@),
{
    let mut n = name.len();
    assert(name@.take(n as int) =~= name@);
    while n > 0 && name[n - 1] == 0
        invariant
            n <= name@.len(),
            trim_zeros(name@.take(n as int)) == trim_zeros(name@),
        decreases n,
    {
        assert(name@.take(n as int).drop_last() =~= name@.take(n - 1));
        n = n - 1;
    }
    assert(trim_zeros(name@.take(n as int)) == name@.take(n as int));
    n
}

/// Analyses a module: finds its module info (at `initial_entry` where a
/// module name stands there, else by the magic pattern that ends the code
/// of a stripped ELF), walks its export and import tables, and names every
/// export and import from the NID database (or `<library>_<NID>` where the
/// database does not know it). Returns the symbols with the NID listing and
/// the `db_lookup` YAML for the module; `OutOfBounds` where a table or the
/// module info points past the end of the text segment.
pub fn analyze_module(
    text_seg: &[u8],
    text_addr: u32,
    text_size: u32,
    initial_entry: u32,
    db: &YamlDb,
    opt_ver: &str,
) -> (r: Result<ModuleReport, ModuleError>)
    ensures
        match r {
            Ok(rep) => spec_analyze_module(text_seg@, text_addr, text_size, initial_entry, db@, opt_ver@)
                == Some(report_view(rep)),
            Err(_) => spec_analyze_module(text_seg@, text_addr, text_size, initial_entry, db@, opt_ver@) is None,
        },
{
    let len = text_seg.len();
    let off0 = initial_entry.wrapping_sub(text_addr) as usize;
    if len >= 27 && off0 <= len - 27 && (len < 31 || off0 > len - 31) {
        return Err(ModuleError::OutOfBounds);
    }
    let entry = find_entry_point(text_seg, text_addr, initial_entry);
    let mod_info_offset = entry.wrapping_sub(text_addr);
    let mo = mod_info_offset as usize;
    if len < 76 || mo > len - 76 {
        return Err(ModuleError::OutOfBounds);
    }
    let mod_info = read_sce_module_info(text_seg, mo);
    let n = trimmed_len(&mod_info.name);
    let module_name = lossy_string(vstd::slice::slice_subrange(&mod_info.name, 0, n));
    let mut yml = String::new();
    yml.append("version: 0x2\nfirmware: ");
    yml.append(opt_ver);
    yml.append("\nmodules:\n  ");
    yml.append(module_name.as_str());
    yml.append(":\n     nid: 0x");
    append_hex8(&mut yml, mod_info.nid);
    yml.append("\n     libraries:\n");
    let mut b = ModBuilder {
        symbols: HashMap::new(),
        nids: String::from_str("//EXPORTS:\n"),
        yml,
        x: 0,
    };
    proof {
        assert(mod_info.name@.subrange(0, n as int) =~= mod_info.name@.take(n as int));
        assert(b.yml@ =~= yml_header(opt_ver@, module_name@, mod_info.nid));
        assert(symbols_view(b.symbols@) =~= Map::empty());
    }
    if !walk_export_tables(
        text_seg,
        text_addr,
        text_size,
        db,
        mod_info.exp_top,
        mod_info.exp_btm,
        &mut b,
    ) {
        return Err(ModuleError::OutOfBounds);
    }
    b.nids.append("//IMPORTS:\n");
    b.x = 0;
    if !walk_import_tables(
        text_seg,
        text_addr,
        text_size,
        db,
        mod_info.imp_top,
        mod_info.imp_btm,
        &mut b,
    ) {
        return Err(ModuleError::OutOfBounds);
    }
    let ModBuilder { symbols, nids, yml, x: _ } = b;
    Ok(
        ModuleReport {
            analysis: ModuleAnalysis {
                symbols,
                mod_info_offset,
                module_name,
                module_nid: mod_info.nid,
                opt_ver: String::from_str(opt_ver),
            },
            nids_text: nids,
            yml_text: yml,
        },
    )
}

/// An export without a library name is named by the fixed table of system
/// NIDs, one name for each: 0x935CD196 `module_start`, 0x79F8E492
/// `module_stop`, 0x913482A9 `module_exit`, 0x6C2224BA `module_info`,
/// 0x70FBA1E7 `module_process_param`; every other NID is `unknown`.
pub proof fn lemma_syslib_names(db: Map<(Seq<char>, u32), Seq<char>>, nid: u32)
    ensures
        export_name(db, None, nid) == syslib_name(nid),
        (syslib_name(nid) == "module_start"@) <==> nid == 0x935CD196,
        (syslib_name(nid) == "module_stop"@) <==> nid == 0x79F8E492,
        (syslib_name(nid) == "module_exit"@) <==> nid == 0x913482A9,
        (syslib_name(nid) == "module_info"@) <==> nid == 0x6C2224BA,
        (syslib_name(nid) == "module_process_param"@) <==> nid == 0x70FBA1E7,
        (syslib_name(nid) == "unknown"@) <==> !(nid == 0x935CD196 || nid == 0x79F8E492 || nid == 0x913482A9
            || nid == 0x6C2224BA || nid == 0x70FBA1E7),
{
    reveal_strlit("module_start");
    reveal_strlit("module_stop");
    reveal_strlit("module_exit");
    reveal_strlit("module_info");
    reveal_strlit("module_process_param");
    reveal_strlit("unknown");
    let names = seq!["module_start"@, "module_stop"@, "module_exit"@, "module_info"@, "module_process_param"@, "unknown"@];
    assert forall|a: int, b: int| 0 <= a < 6 && 0 <= b < 6 && a != b implies names[a] != names[b] by {
        if names[a] == names[b] {
            assert(names[a].len() == names[b].len());
            assert(names[a][7] == names[b][7]);
            assert(names[a][0] == names[b][0]);
        }
    }
    assert(names[0] == "module_start"@);
    assert(names[1] == "module_stop"@);
    assert(names[2] == "module_exit"@);
    assert(names[3] == "module_info"@);
    assert(names[4] == "module_process_param"@);
    assert(names[5] == "unknown"@);
}

} // verus!
