//! SCE relocation tables (the `PT_SCE_RELA` segment) and how they patch the
//! text and data segments.
//!
//! A table is a sequence of entries of 8 bytes ("short" entries, whose type
//! word has a non-zero low nibble) or 12 bytes ("long" entries). Each entry
//! names a relocation code, the segment of the symbol, the segment that is
//! patched, an offset into that segment and an addend.
use vstd::prelude::*;
use crate::bytes::{le16, le32, store_le32, get_u16_le, get_u32_le, put_u32_le};
use crate::elf::{ElfPhdr, LoadedBinary, spec_load_segment_raw};
use vstd::wrapping::u32_specs::{wrapping_add, wrapping_sub};

verus! {

/// The load address of program header `idx`, or 0 where there is none.
pub open spec fn seg_vaddr(phdrs: Seq<ElfPhdr>, idx: u32) -> u32 {
    if (idx as int) < phdrs.len() {
        phdrs[idx as int].p_vaddr
    } else {
        0
    }
}

/// Whether a relocation type word introduces a short (8-byte) entry.
pub open spec fn spec_is_short(r_type: u32) -> bool {
    r_type & 0xF != 0
}

/// The relocation code of a type word.
pub open spec fn reloc_code(r_type: u32) -> u32 {
    (r_type >> 8) & 0xFF
}

/// The segment index of the symbol of a type word (15: absolute).
pub open spec fn reloc_symseg(r_type: u32) -> u32 {
    (r_type >> 4) & 0xF
}

/// The segment index that a type word patches.
pub open spec fn reloc_datseg(r_type: u32) -> u32 {
    (r_type >> 16) & 0xF
}

/// The entry that starts at `pos`: its type word, offset, addend and size,
/// or `None` where a long entry does not fit in the table.
pub open spec fn decode_entry(reloc: Seq<u8>, pos: int) -> Option<(u32, u32, u32, int)> {
    let r_type = le32(reloc, pos);
    if spec_is_short(r_type) {
        let opt2 = le32(reloc, pos + 4);
        Some((r_type, (r_type >> 20) | ((opt2 & 0x3FF) << 12), opt2 >> 10, 8))
    } else if pos + 12 > reloc.len() {
        None
    } else {
        Some((r_type, le32(reloc, pos + 8), le32(reloc, pos + 4), 12))
    }
}

/// The Thumb BL/BLX instruction pair (`upper`, `lower` halfwords) retargeted
/// by the branch displacement `off`, as one little-endian word.
pub open spec fn thumb_call_word(upper: u32, lower: u32, off: u32) -> u32 {
    let sign = (off >> 24) & 1;
    let j1 = sign ^ ((!(off >> 23)) & 1);
    let j2 = sign ^ ((!(off >> 22)) & 1);
    let up = (upper & 0xf800) | (sign << 10) | ((off >> 12) & 0x03ff);
    let lo = (lower & 0xd000) | (j1 << 13) | (j2 << 11) | ((off >> 1) & 0x07ff);
    (lo << 16) | up
}

/// The Thumb MOVW/MOVT instruction pair loaded with the 16-bit value `v`.
pub open spec fn thumb_mov_word(upper: u32, lower: u32, v: u32) -> u32 {
    let up = (upper & 0xfbf0) | ((v & 0xf000) >> 12) | ((v & 0x0800) >> 1);
    let lo = (lower & 0x8f00) | ((v & 0x0700) << 4) | (v & 0x00ff);
    (lo << 16) | up
}

/// The ARM MOVW/MOVT instruction `inst` loaded with the 16-bit value `v`.
pub open spec fn arm_mov_word(inst: u32, v: u32) -> u32 {
    (inst & 0xfff0f000) | ((v & 0xf000) << 4) | (v & 0x0fff)
}

/// The word that relocation `code` stores at offset `off` of `seg`, where
/// `s_a` is symbol plus addend (or addend plus symbol) and `loc` the patched
/// address; `None` where the code leaves the segment alone (R_ARM_NONE, an
/// unknown code, or an instruction that does not fit).
pub open spec fn patch_value(
    code: u32,
    addend: u32,
    symval: u32,
    loc: u32,
    seg: Seq<u8>,
    off: int,
) -> Option<u32> {
    let fits = off + 4 <= seg.len();
    let rel = wrapping_sub(wrapping_add(addend, symval), loc);
    let abs = wrapping_add(symval, addend);
    if code == 2 || code == 38 {
        Some(wrapping_add(addend, symval))
    } else if code == 3 || code == 41 {
        Some(rel)
    } else if code == 10 {
        if fits {
            Some(thumb_call_word(le16(seg, off) as u32, le16(seg, off + 2) as u32, rel))
        } else {
            None
        }
    } else if code == 28 || code == 29 {
        if fits {
            Some((le32(seg, off) & 0xff000000) | ((rel >> 2) & 0x00ffffff))
        } else {
            None
        }
    } else if code == 40 {
        if fits {
            Some((le32(seg, off) & 0xf000000f) | 0x01a0f000)
        } else {
            None
        }
    } else if code == 42 {
        Some(rel & 0x7fffffff)
    } else if code == 43 || code == 44 {
        if fits {
            Some(arm_mov_word(le32(seg, off), if code == 44 { abs >> 16 } else { abs }))
        } else {
            None
        }
    } else if code == 47 || code == 48 {
        if fits {
            Some(
                thumb_mov_word(
                    le16(seg, off) as u32,
                    le16(seg, off + 2) as u32,
                    if code == 48 { abs >> 16 } else { abs },
                ),
            )
        } else {
            None
        }
    } else {
        None
    }
}

/// `seg` after relocation `code` has patched offset `off`: the value is
/// stored where all four bytes fit and the segment is kept otherwise.
pub open spec fn patch_segment(
    seg: Seq<u8>,
    code: u32,
    addend: u32,
    symval: u32,
    loc: u32,
    off: int,
) -> Seq<u8> {
    if off > seg.len() {
        seg
    } else {
        match patch_value(code, addend, symval, loc, seg, off) {
            Some(v) => if off + 4 <= seg.len() {
                store_le32(seg, off, v)
            } else {
                seg
            },
            None => seg,
        }
    }
}

/// The (text, data) pair after one entry has been applied.
pub open spec fn apply_entry(
    phdrs: Seq<ElfPhdr>,
    r_type: u32,
    r_offset: u32,
    r_addend: u32,
    text: Seq<u8>,
    data: Seq<u8>,
) -> (Seq<u8>, Seq<u8>) {
    let symseg = reloc_symseg(r_type);
    let datseg = reloc_datseg(r_type);
    let symval = if symseg == 15 {
        0u32
    } else {
        seg_vaddr(phdrs, symseg)
    };
    let loc = wrapping_add(seg_vaddr(phdrs, datseg), r_offset);
    let code = reloc_code(r_type);
    if datseg != 0 {
        (text, patch_segment(data, code, r_addend, symval, loc, r_offset as int))
    } else {
        (patch_segment(text, code, r_addend, symval, loc, r_offset as int), data)
    }
}

/// The (text, data) pair after every entry from `pos` on has been applied,
/// in table order.
pub open spec fn relocate_from(
    reloc: Seq<u8>,
    phdrs: Seq<ElfPhdr>,
    pos: nat,
    text: Seq<u8>,
    data: Seq<u8>,
) -> (Seq<u8>, Seq<u8>)
    decreases reloc.len() - pos,
{
    if pos + 8 > reloc.len() {
        (text, data)
    } else {
        match decode_entry(reloc, pos as int) {
            None => (text, data),
            Some(e) => {
                let (t2, d2) = apply_entry(phdrs, e.0, e.1, e.2, text, data);
                if e.3 > 0 {
                    relocate_from(reloc, phdrs, (pos + e.3) as nat, t2, d2)
                } else {
                    (t2, d2)
                }
            },
        }
    }
}

/// Whether a relocation type word introduces a short (8-byte) entry.
pub fn is_short(r_type: u32) -> (r: bool)
    ensures
        r == spec_is_short(r_type),
{
    (r_type & 0xF) != 0
}

/// The 32-bit little-endian word at `offset`.
pub fn read_u32_le(data: &[u8], offset: usize) -> (r: u32)
    requires
        offset + 4 <= data.len(),
    ensures
        r == le32(data@, offset as int),
{
    get_u32_le(data, offset)
}

fn read_u16_as_u32(seg: &[u8], off: usize) -> (r: u32)
    requires
        off + 2 <= seg.len(),
    ensures
        r == le16(seg@, off as int) as u32,
{
    get_u16_le(seg, off) as u32
}

fn compute_patch(code: u32, addend: u32, symval: u32, loc: u32, seg: &[u8], off: usize) -> (r:
    Option<u32>)
    requires
        off <= seg.len(),
    ensures
        r == patch_value(code, addend, symval, loc, seg@, off as int),
{
    let fits = seg.len() >= 4 && off <= seg.len() - 4;
    let rel = addend.wrapping_add(symval).wrapping_sub(loc);
    let abs = symval.wrapping_add(addend);
    if code == 2 || code == 38 {
        Some(addend.wrapping_add(symval))
    } else if code == 3 || code == 41 {
        Some(rel)
    } else if code == 10 {
        if fits {
            let upper = read_u16_as_u32(seg, off);
            let lower = read_u16_as_u32(seg, off + 2);
            let sign = (rel >> 24) & 1;
            let j1 = sign ^ ((!(rel >> 23)) & 1);
            let j2 = sign ^ ((!(rel >> 22)) & 1);
            let up = (upper & 0xf800) | (sign << 10) | ((rel >> 12) & 0x03ff);
            let lo = (lower & 0xd000) | (j1 << 13) | (j2 << 11) | ((rel >> 1) & 0x07ff);
            Some((lo << 16) | up)
        } else {
            None
        }
    } else if code == 28 || code == 29 {
        if fits {
            let inst = read_u32_le(seg, off);
            Some((inst & 0xff000000) | ((rel >> 2) & 0x00ffffff))
        } else {
            None
        }
    } else if code == 40 {
        if fits {
            let inst = read_u32_le(seg, off);
            Some((inst & 0xf000000f) | 0x01a0f000)
        } else {
            None
        }
    } else if code == 42 {
        Some(rel & 0x7fffffff)
    } else if code == 43 || code == 44 {
        if fits {
            let v = if code == 44 {
                abs >> 16
            } else {
                abs
            };
            let inst = read_u32_le(seg, off);
            Some((inst & 0xfff0f000) | ((v & 0xf000) << 4) | (v & 0x0fff))
        } else {
            None
        }
    } else if code == 47 || code == 48 {
        if fits {
            let v = if code == 48 {
                abs >> 16
            } else {
                abs
            };
            let upper = read_u16_as_u32(seg, off);
            let lower = read_u16_as_u32(seg, off + 2);
            let up = (upper & 0xfbf0) | ((v & 0xf000) >> 12) | ((v & 0x0800) >> 1);
            let lo = (lower & 0x8f00) | ((v & 0x0700) << 4) | (v & 0x00ff);
            Some((lo << 16) | up)
        } else {
            None
        }
    } else {
        None
    }
}

fn patch_in_place(seg: &mut [u8], code: u32, addend: u32, symval: u32, loc: u32, off: usize)
    ensures
        final(seg)@ == patch_segment(old(seg)@, code, addend, symval, loc, off as int),
{
    if off > seg.len() {
        return ;
    }
    match compute_patch(code, addend, symval, loc, seg, off) {
        Some(v) => {
            if seg.len() >= 4 && off <= seg.len() - 4 {
                put_u32_le(seg, off, v);
            }
        },
        None => {},
    }
}

/// Applies every entry of the relocation table `reloc_data` to the text
/// and data segments, in table order. `phdrs` gives the load address of
/// each segment that an entry names.
///
/// The walk ends where fewer than 8 bytes remain, or where a long entry
/// does not fit. An entry whose target offset lies beyond its segment, an
/// R_ARM_NONE entry, an entry of an unknown code and an instruction that
/// does not fit leave both segments unchanged; a computed word is stored
/// only where its four bytes lie inside the segment.
pub fn relocate(reloc_data: &[u8], phdrs: &[ElfPhdr], text_seg: &mut [u8], data_seg: &mut [u8])
    ensures
        (final(text_seg)@, final(data_seg)@) == relocate_from(
            reloc_data@,
            phdrs@,
            0,
            old(text_seg)@,
            old(data_seg)@,
        ),
{
    let mut pos: usize = 0;
    let len = reloc_data.len();
    while len >= 8 && pos <= len - 8
        invariant
            len == reloc_data@.len(),
            relocate_from(reloc_data@, phdrs@, 0, old(text_seg)@, old(data_seg)@) == relocate_from(
                reloc_data@,
                phdrs@,
                pos as nat,
                text_seg@,
                data_seg@,
            ),
        ensures
            relocate_from(reloc_data@, phdrs@, 0, old(text_seg)@, old(data_seg)@) == (
                text_seg@,
                data_seg@,
            ),
        decreases len - pos,
    {
        let r_type = read_u32_le(reloc_data, pos);
        let r_offset: u32;
        let r_addend: u32;
        let entry_size: usize;
        if is_short(r_type) {
            let r_opt2 = read_u32_le(reloc_data, pos + 4);
            r_offset = (r_type >> 20) | ((r_opt2 & 0x3FF) << 12);
            r_addend = r_opt2 >> 10;
            entry_size = 8;
        } else {
            if len - pos < 12 {
                break ;
            }
            r_addend = read_u32_le(reloc_data, pos + 4);
            r_offset = read_u32_le(reloc_data, pos + 8);
            entry_size = 12;
        }
        let r_code = (r_type >> 8) & 0xFF;
        let r_symseg = (r_type >> 4) & 0xF;
        let r_datseg = (r_type >> 16) & 0xF;
        let symval: u32 = if r_symseg == 15 {
            0
        } else if (r_symseg as usize) < phdrs.len() {
            phdrs[r_symseg as usize].p_vaddr
        } else {
            0
        };
        let seg_base: u32 = if (r_datseg as usize) < phdrs.len() {
            phdrs[r_datseg as usize].p_vaddr
        } else {
            0
        };
        let loc = seg_base.wrapping_add(r_offset);
        if r_datseg != 0 {
            patch_in_place(data_seg, r_code, r_addend, symval, loc, r_offset as usize);
        } else {
            patch_in_place(text_seg, r_code, r_addend, symval, loc, r_offset as usize);
        }
        pos = pos + entry_size;
    }
}

/// The program-header type of SCE relocation segments.
pub const PT_SCE_RELA: u32 = 0x6000_0000;

/// The section-info entry of segment `i`, where the file has one.
pub open spec fn seg_info_at(infos: Seq<(u64, u64, u64)>, i: int) -> Option<(u64, u64, u64)> {
    if 0 <= i < infos.len() {
        Some(infos[i])
    } else {
        None
    }
}

/// The text and data segments after the relocation segments among the
/// first `k` program headers have been applied, in order, each read raw
/// from the file.
pub open spec fn relocate_segments(
    buf: Seq<u8>,
    phdrs: Seq<ElfPhdr>,
    infos: Seq<(u64, u64, u64)>,
    k: nat,
    text: Seq<u8>,
    data: Seq<u8>,
) -> (Seq<u8>, Seq<u8>)
    decreases k,
{
    if k == 0 {
        (text, data)
    } else {
        let (t, d) = relocate_segments(buf, phdrs, infos, (k - 1) as nat, text, data);
        let i = k - 1;
        if phdrs[i].p_type == PT_SCE_RELA {
            relocate_from(spec_load_segment_raw(buf, phdrs[i], seg_info_at(infos, i)), phdrs, 0, t, d)
        } else {
            (t, d)
        }
    }
}

/// The indices of the relocation segments among the first `k` program
/// headers.
pub open spec fn reloc_indices(phdrs: Seq<ElfPhdr>, k: nat) -> Seq<usize>
    decreases k,
{
    if k == 0 {
        Seq::empty()
    } else {
        let s = reloc_indices(phdrs, (k - 1) as nat);
        if phdrs[k - 1].p_type == PT_SCE_RELA {
            s.push((k - 1) as usize)
        } else {
            s
        }
    }
}

/// Applies every relocation segment of a loaded binary to its text and
/// data segments, in program-header order, and returns the indices of the
/// segments applied.
pub fn relocate_binary(loaded: &mut LoadedBinary) -> (used: Vec<usize>)
    ensures
        (final(loaded).text_seg@, final(loaded).data_seg@) == relocate_segments(
            old(loaded).buf@,
            old(loaded).phdrs@,
            old(loaded).segment_infos@,
            old(loaded).phdrs@.len(),
            old(loaded).text_seg@,
            old(loaded).data_seg@,
        ),
        used@ == reloc_indices(old(loaded).phdrs@, old(loaded).phdrs@.len()),
        final(loaded).buf@ == old(loaded).buf@,
        final(loaded).phdrs@ == old(loaded).phdrs@,
        final(loaded).segment_infos@ == old(loaded).segment_infos@,
        final(loaded).text_addr == old(loaded).text_addr,
        final(loaded).data_addr == old(loaded).data_addr,
        final(loaded).entry_point == old(loaded).entry_point,
{
    let mut used: Vec<usize> = Vec::new();
    let n = loaded.phdrs.len();
    let mut i: usize = 0;
    while i < n
        invariant
            i <= n == loaded.phdrs@.len(),
            loaded.buf@ == old(loaded).buf@,
            loaded.phdrs@ == old(loaded).phdrs@,
            loaded.segment_infos@ == old(loaded).segment_infos@,
            loaded.text_addr == old(loaded).text_addr,
            loaded.data_addr == old(loaded).data_addr,
            loaded.entry_point == old(loaded).entry_point,
            (loaded.text_seg@, loaded.data_seg@) == relocate_segments(
                old(loaded).buf@,
                old(loaded).phdrs@,
                old(loaded).segment_infos@,
                i as nat,
                old(loaded).text_seg@,
                old(loaded).data_seg@,
            ),
            used@ == reloc_indices(old(loaded).phdrs@, i as nat),
        decreases n - i,
    {
        if loaded.phdrs[i].p_type == PT_SCE_RELA {
            let raw = match loaded.load_segment_raw(i) {
                Ok(v) => v,
                Err(_) => {
                    proof {
                        assert(false);
                    }
                    Vec::new()
                },
            };
            relocate(raw.as_slice(), loaded.phdrs.as_slice(), loaded.text_seg.as_mut_slice(), loaded.data_seg.as_mut_slice());
            used.push(i);
        }
        i = i + 1;
    }
    used
}

/// Whether `s2` differs from `s1`, of the same length, at most in the four
/// bytes at `off`.
pub open spec fn differs_only_at(s1: Seq<u8>, s2: Seq<u8>, off: int) -> bool {
    &&& s2.len() == s1.len()
    &&& forall|k: int| 0 <= k < s1.len() && !(off <= k < off + 4) ==> #[trigger] s2[k] == s1[k]
}

proof fn lemma_patch_segment_local(seg: Seq<u8>, code: u32, addend: u32, symval: u32, loc: u32, off: int)
    requires
        0 <= off,
    ensures
        differs_only_at(seg, patch_segment(seg, code, addend, symval, loc, off), off),
{
    if off <= seg.len() {
        match patch_value(code, addend, symval, loc, seg, off) {
            Some(v) => if off + 4 <= seg.len() {
                let r = store_le32(seg, off, v);
                assert(r.len() == seg.len());
                assert forall|k: int| 0 <= k < seg.len() && !(off <= k < off + 4) implies #[trigger] r[k] == seg[k] by {
                    if k < off {
                        assert(r[k] == seg.take(off)[k]);
                    } else {
                        assert(k >= off + 4);
                        assert(r[k] == seg.skip(off + 4)[k - off - 4]);
                    }
                }
            },
            None => {},
        }
    }
}

/// One relocation entry patches one segment only (the data segment where
/// its segment index is not 0, else the text segment), and there at most
/// the four bytes at its offset; lengths never change.
pub proof fn lemma_entry_is_local(
    phdrs: Seq<ElfPhdr>,
    r_type: u32,
    r_offset: u32,
    r_addend: u32,
    text: Seq<u8>,
    data: Seq<u8>,
)
    ensures
        ({
            let (t2, d2) = apply_entry(phdrs, r_type, r_offset, r_addend, text, data);
            &&& reloc_datseg(r_type) != 0 ==> t2 == text && differs_only_at(data, d2, r_offset as int)
            &&& reloc_datseg(r_type) == 0 ==> d2 == data && differs_only_at(text, t2, r_offset as int)
        }),
{
    let symseg = reloc_symseg(r_type);
    let datseg = reloc_datseg(r_type);
    let symval = if symseg == 15 {
        0u32
    } else {
        seg_vaddr(phdrs, symseg)
    };
    let loc = wrapping_add(seg_vaddr(phdrs, datseg), r_offset);
    let code = reloc_code(r_type);
    lemma_patch_segment_local(data, code, r_addend, symval, loc, r_offset as int);
    lemma_patch_segment_local(text, code, r_addend, symval, loc, r_offset as int);
}

/// Relocation never changes the length of the text or the data segment.
pub proof fn lemma_relocate_keeps_lengths(
    reloc: Seq<u8>,
    phdrs: Seq<ElfPhdr>,
    pos: nat,
    text: Seq<u8>,
    data: Seq<u8>,
)
    ensures
        relocate_from(reloc, phdrs, pos, text, data).0.len() == text.len(),
        relocate_from(reloc, phdrs, pos, text, data).1.len() == data.len(),
    decreases reloc.len() - pos,
{
    if pos + 8 <= reloc.len() {
        match decode_entry(reloc, pos as int) {
            None => {},
            Some(e) => {
                lemma_entry_is_local(phdrs, e.0, e.1, e.2, text, data);
                let (t2, d2) = apply_entry(phdrs, e.0, e.1, e.2, text, data);
                if e.3 > 0 {
                    lemma_relocate_keeps_lengths(reloc, phdrs, (pos + e.3) as nat, t2, d2);
                }
            },
        }
    }
}

/// Relocating a whole binary never changes the length of its text or data
/// segment.
pub proof fn lemma_relocate_segments_keeps_lengths(
    buf: Seq<u8>,
    phdrs: Seq<ElfPhdr>,
    infos: Seq<(u64, u64, u64)>,
    k: nat,
    text: Seq<u8>,
    data: Seq<u8>,
)
    ensures
        relocate_segments(buf, phdrs, infos, k, text, data).0.len() == text.len(),
        relocate_segments(buf, phdrs, infos, k, text, data).1.len() == data.len(),
    decreases k,
{
    if k > 0 {
        lemma_relocate_segments_keeps_lengths(buf, phdrs, infos, (k - 1) as nat, text, data);
        let (t, d) = relocate_segments(buf, phdrs, infos, (k - 1) as nat, text, data);
        let i = k - 1;
        if phdrs[i].p_type == PT_SCE_RELA {
            lemma_relocate_keeps_lengths(spec_load_segment_raw(buf, phdrs[i], seg_info_at(infos, i)), phdrs, 0, t, d);
        }
    }
}

/// Whether the table from `pos` on is made of whole entries, with nothing
/// left over.
pub open spec fn whole_entries(reloc: Seq<u8>, pos: nat) -> bool
    decreases reloc.len() - pos,
{
    if pos == reloc.len() {
        true
    } else if pos + 8 > reloc.len() {
        false
    } else {
        match decode_entry(reloc, pos as int) {
            None => false,
            Some(e) => e.3 > 0 && pos + e.3 <= reloc.len() && whole_entries(reloc, (pos + e.3) as nat),
        }
    }
}

proof fn lemma_decode_entry_prefix(a: Seq<u8>, b: Seq<u8>, pos: int)
    requires
        0 <= pos,
        pos + 8 <= a.len(),
        decode_entry(a, pos) matches Some(e) && pos + e.3 <= a.len(),
    ensures
        decode_entry(a + b, pos) == decode_entry(a, pos),
{
    let ab = a + b;
    assert(ab.len() >= a.len());
    assert forall|k: int| pos <= k < pos + 8 implies ab[k] == a[k] by {}
    if !spec_is_short(le32(a, pos)) {
        assert forall|k: int| pos + 8 <= k < pos + 12 implies ab[k] == a[k] by {}
    }
}

proof fn lemma_decode_entry_suffix(a: Seq<u8>, b: Seq<u8>, q: int)
    requires
        0 <= q,
        q + 8 <= b.len(),
    ensures
        decode_entry(a + b, a.len() + q) == decode_entry(b, q),
{
    let ab = a + b;
    assert forall|m: int| a.len() + q <= m < a.len() + q + 8 implies #[trigger] ab[m] == b[m - a.len()] by {}
    assert(le32(ab, a.len() + q) == le32(b, q));
    assert(le32(ab, a.len() + q + 4) == le32(b, q + 4));
    if !spec_is_short(le32(b, q)) && q + 12 <= b.len() {
        assert forall|m: int| a.len() + q + 8 <= m < a.len() + q + 12 implies #[trigger] ab[m] == b[m - a.len()] by {}
        assert(le32(ab, a.len() + q + 8) == le32(b, q + 8));
    }
}

proof fn lemma_relocate_suffix(a: Seq<u8>, b: Seq<u8>, phdrs: Seq<ElfPhdr>, q: nat, text: Seq<u8>, data: Seq<u8>)
    ensures
        relocate_from(a + b, phdrs, a.len() + q, text, data) == relocate_from(b, phdrs, q, text, data),
    decreases b.len() - q,
{
    let ab = a + b;
    if q + 8 <= b.len() {
        lemma_decode_entry_suffix(a, b, q as int);
        match decode_entry(b, q as int) {
            None => {},
            Some(e) => {
                let (t2, d2) = apply_entry(phdrs, e.0, e.1, e.2, text, data);
                if e.3 > 0 {
                    lemma_relocate_suffix(a, b, phdrs, (q + e.3) as nat, t2, d2);
                    assert((a.len() + q + e.3) as nat == a.len() + (q + e.3) as nat);
                }
            },
        }
    }
}

proof fn lemma_relocate_concat_from(
    r1: Seq<u8>,
    r2: Seq<u8>,
    phdrs: Seq<ElfPhdr>,
    pos: nat,
    text: Seq<u8>,
    data: Seq<u8>,
)
    requires
        whole_entries(r1, pos),
        pos <= r1.len(),
    ensures
        relocate_from(r1 + r2, phdrs, pos, text, data) == ({
            let (t1, d1) = relocate_from(r1, phdrs, pos, text, data);
            relocate_from(r2, phdrs, 0, t1, d1)
        }),
    decreases r1.len() - pos,
{
    if pos == r1.len() {
        lemma_relocate_suffix(r1, r2, phdrs, 0, text, data);
        assert(r1.len() + 0nat == pos);
    } else {
        let e = decode_entry(r1, pos as int).unwrap();
        lemma_decode_entry_prefix(r1, r2, pos as int);
        let (t2, d2) = apply_entry(phdrs, e.0, e.1, e.2, text, data);
        lemma_relocate_concat_from(r1, r2, phdrs, (pos + e.3) as nat, t2, d2);
    }
}

/// Relocating with two tables one after the other, the first made of
/// whole entries, is relocating with the first and then with the second.
pub proof fn lemma_relocate_concat(r1: Seq<u8>, r2: Seq<u8>, phdrs: Seq<ElfPhdr>, text: Seq<u8>, data: Seq<u8>)
    requires
        whole_entries(r1, 0),
    ensures
        relocate_from(r1 + r2, phdrs, 0, text, data) == ({
            let (t1, d1) = relocate_from(r1, phdrs, 0, text, data);
            relocate_from(r2, phdrs, 0, t1, d1)
        }),
{
    lemma_relocate_concat_from(r1, r2, phdrs, 0, text, data);
}

/// The symbol value an entry adds: 0 for symbol segment 15 (absolute),
/// else the load address of that segment.
pub open spec fn entry_symval(phdrs: Seq<ElfPhdr>, r_type: u32) -> u32 {
    if reloc_symseg(r_type) == 15 {
        0
    } else {
        seg_vaddr(phdrs, reloc_symseg(r_type))
    }
}

/// The address an entry patches (P): the load address of its segment plus
/// its offset.
pub open spec fn entry_place(phdrs: Seq<ElfPhdr>, r_type: u32, r_offset: u32) -> u32 {
    wrapping_add(seg_vaddr(phdrs, reloc_datseg(r_type)), r_offset)
}

/// The data relocations store whole words: R_ARM_ABS32 (2) and
/// R_ARM_TARGET1 (38) store S + A, the symbol's absolute address plus the
/// addend; R_ARM_REL32 (3) and R_ARM_REL32_NOI (41) store S + A - P, the
/// same address relative to the place patched; R_ARM_PREL31 (42) stores
/// that relative value without its top bit. All arithmetic is modulo 2^32,
/// and the word lands at the entry's offset of the segment it names,
/// provided its four bytes fit there.
pub proof fn lemma_word_relocations(
    phdrs: Seq<ElfPhdr>,
    r_type: u32,
    r_offset: u32,
    r_addend: u32,
    text: Seq<u8>,
    data: Seq<u8>,
)
    requires
        r_offset + 4 <= (if reloc_datseg(r_type) != 0 { data.len() } else { text.len() }),
    ensures
        ({
            let (t2, d2) = apply_entry(phdrs, r_type, r_offset, r_addend, text, data);
            let code = reloc_code(r_type);
            let abs = wrapping_add(r_addend, entry_symval(phdrs, r_type));
            let rel = wrapping_sub(abs, entry_place(phdrs, r_type, r_offset));
            let seg = if reloc_datseg(r_type) != 0 { data } else { text };
            let out = if reloc_datseg(r_type) != 0 { d2 } else { t2 };
            &&& (code == 2 || code == 38) ==> out == store_le32(seg, r_offset as int, abs)
            &&& (code == 3 || code == 41) ==> out == store_le32(seg, r_offset as int, rel)
            &&& code == 42 ==> out == store_le32(seg, r_offset as int, rel & 0x7fff_ffff)
            &&& (code == 3 || code == 41) ==> wrapping_add(rel, entry_place(phdrs, r_type, r_offset)) == abs
        }),
{
    let abs = wrapping_add(r_addend, entry_symval(phdrs, r_type));
    let place = entry_place(phdrs, r_type, r_offset);
    let rel = wrapping_sub(abs, place);
    assert(wrapping_add(rel, place) == abs) by {
        assert(rel == (if abs >= place { abs - place } else { abs - place + 0x1_0000_0000 }));
    }
}

} // verus!
