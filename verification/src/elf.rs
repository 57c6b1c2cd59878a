//! ELF and SELF containers: program headers, SCE segment information and
//! segment loading.
//!
//! File offsets are 64-bit values and are computed with 64-bit wrapping
//! arithmetic, as the tool does on the 64-bit hosts it runs on.
use vstd::prelude::*;
use crate::bytes::{le32, le64, get_u32_le, get_u64_le};
use vstd::wrapping::u64_specs::{wrapping_add, wrapping_sub};

verus! {

/// An ELF32 program header, reduced to the fields the decompiler reads.
#[derive(Clone, Copy, Debug)]
pub struct ElfPhdr {
    pub p_type: u32,
    pub p_offset: u32,
    pub p_vaddr: u32,
    pub p_filesz: u32,
    pub p_memsz: u32,
}

/// Why a binary or one of its segments cannot be loaded.
#[derive(Debug, Clone, Copy, PartialEq, Eq)]
pub enum ElfError {
    /// The file is neither ELF nor SELF.
    NotElfOrSelf,
    /// A SELF file shorter than its 0x1000-byte header.
    SelfTooSmall,
    /// The ELF image is refused by the ELF parser.
    BadElf,
    /// A plain ELF without program headers.
    NoProgramHeaders,
    /// Fewer than the two segments (text and data) the tool needs.
    TooFewSegments(usize),
    /// A segment index past the program header table.
    SegmentIndex(usize),
    /// A compressed segment that does not inflate.
    Decompress,
    /// A header or table that points past the end of the file.
    OutOfBounds,
}

/// The SCE header fields of a SELF file: where the ELF image, its program
/// headers and the segment information table start.
#[derive(Clone, Copy, Debug)]
pub struct SelfHeader {
    pub elf_offset: u64,
    pub phdr_offset: u64,
    pub section_info_offset: u64,
}

pub const SELF_MAGIC: u32 = 0x454353;

pub const HEADER_LEN: usize = 0x1000;

/// Whether the file starts with the SELF magic.
pub open spec fn spec_is_self(buf: Seq<u8>) -> bool {
    buf.len() >= 4 && le32(buf, 0) == SELF_MAGIC
}

/// Whether the file starts with the ELF magic (and holds at least 8 bytes).
pub open spec fn spec_is_elf(buf: Seq<u8>) -> bool {
    buf.len() >= 8 && buf[0] == 0x7f && buf[1] == 0x45 && buf[2] == 0x4c && buf[3] == 0x46
}

/// Whether the file starts with the SELF magic.
pub fn is_self(buf: &[u8]) -> (r: bool)
    ensures
        r == spec_is_self(buf@),
{
    buf.len() >= 4 && get_u32_le(buf, 0) == SELF_MAGIC
}

/// Whether the file starts with the ELF magic (and holds at least 8 bytes).
pub fn is_elf(buf: &[u8]) -> (r: bool)
    ensures
        r == spec_is_elf(buf@),
{
    buf.len() >= 8 && buf[0] == 0x7f && buf[1] == 0x45 && buf[2] == 0x4c && buf[3] == 0x46
}

/// The SCE header of a SELF file, or `SelfTooSmall`.
pub open spec fn spec_self_header(buf: Seq<u8>) -> Result<SelfHeader, ElfError> {
    if buf.len() < HEADER_LEN {
        Err(ElfError::SelfTooSmall)
    } else {
        Ok(
            SelfHeader {
                elf_offset: le64(buf, 0x40),
                phdr_offset: le64(buf, 0x48),
                section_info_offset: le64(buf, 0x58),
            },
        )
    }
}

/// Reads the SCE header of a SELF file.
pub fn parse_self_header(buf: &[u8]) -> (r: Result<SelfHeader, ElfError>)
    ensures
        r == spec_self_header(buf@),
{
    if buf.len() < HEADER_LEN {
        return Err(ElfError::SelfTooSmall);
    }
    Ok(
        SelfHeader {
            elf_offset: get_u64_le(buf, 0x40),
            phdr_offset: get_u64_le(buf, 0x48),
            section_info_offset: get_u64_le(buf, 0x58),
        },
    )
}

/// Names what zlib inflation (`flate2::Decompress` with a zlib header, in
/// one `Finish` call) makes of `input` in an output buffer of `out_len`
/// zero bytes: the buffer afterwards, or `None` where the stream is corrupt.
pub uninterp spec fn zlib_inflate(input: Seq<u8>, out_len: nat) -> Option<Seq<u8>>;

/// Inflates a zlib stream into a buffer of `out_len` zero bytes with
/// `flate2::Decompress::decompress` and `FlushDecompress::Finish`. The
/// contract names the buffer's contents; that the buffer keeps its length
/// follows from the call writing into a slice.
#[verifier::external_body]
fn inflate(input: &[u8], out_len: usize) -> (r: Option<Vec<u8>>)
    ensures
        r matches Some(v) ==> v@.len() == out_len,
        match r {
            Some(v) => zlib_inflate(input@, out_len as nat) == Some(v@),
            None => zlib_inflate(input@, out_len as nat) is None,
        },
{
    let mut out = vec![0u8; out_len];
    let mut d = flate2::Decompress::new(true);
    match d.decompress(input, &mut out, flate2::FlushDecompress::Finish) {
        Ok(_) => Some(out),
        Err(_) => None,
    }
}

/// `n` zero bytes.
pub open spec fn zeros(n: nat) -> Seq<u8> {
    Seq::new(n, |i: int| 0u8)
}

/// The memory size of a segment: the larger of its memory and file sizes.
pub open spec fn seg_size(phdr: ElfPhdr) -> nat {
    if phdr.p_memsz >= phdr.p_filesz {
        phdr.p_memsz as nat
    } else {
        phdr.p_filesz as nat
    }
}

/// Where a segment's bytes are in the file, how many there are and how they
/// are compressed: from its SCE segment information where there is one,
/// else from its program header (uncompressed).
pub open spec fn seg_source(phdr: ElfPhdr, info: Option<(u64, u64, u64)>) -> (u64, u64, u64) {
    match info {
        Some(i) => i,
        None => (phdr.p_offset as u64, phdr.p_filesz as u64, 1),
    }
}

/// The smaller of two naturals.
pub open spec fn min_nat(a: nat, b: nat) -> nat {
    if a <= b {
        a
    } else {
        b
    }
}

/// A loaded segment: the file bytes it covers (where they lie in the file)
/// padded with zeros to its memory size, then inflated where its
/// compression is 2.
pub open spec fn spec_load_segment(buf: Seq<u8>, phdr: ElfPhdr, info: Option<(u64, u64, u64)>) -> Result<
    Seq<u8>,
    ElfError,
> {
    let sz = seg_size(phdr);
    let (off, size, comp) = seg_source(phdr, info);
    let copy = min_nat(size as nat, sz);
    let end = wrapping_add(off, copy as u64);
    if end as int <= buf.len() && off as int + copy > u64::MAX {
        Err(ElfError::OutOfBounds)
    } else {
        let out = if end as int <= buf.len() {
            buf.subrange(off as int, off + copy) + zeros((sz - copy) as nat)
        } else {
            zeros(sz)
        };
        if comp == 2 {
            match zlib_inflate(out.take(copy as int), sz) {
                Some(d) => Ok(d),
                None => Err(ElfError::Decompress),
            }
        } else {
            Ok(out)
        }
    }
}

/// Loads one segment: copies its file bytes into a zero buffer of its
/// memory size and inflates it where its compression is 2.
pub fn load_segment(buf: &[u8], phdr: &ElfPhdr, seg_info: Option<&(u64, u64, u64)>) -> (r: Result<
    Vec<u8>,
    ElfError,
>)
    ensures
        match r {
            Ok(v) => spec_load_segment(buf@, *phdr, match seg_info {
                Some(i) => Some(*i),
                None => None,
            }) == Ok::<Seq<u8>, ElfError>(v@),
            Err(e) => spec_load_segment(buf@, *phdr, match seg_info {
                Some(i) => Some(*i),
                None => None,
            }) == Err::<Seq<u8>, ElfError>(e),
        },
        r matches Ok(v) ==> v@.len() == seg_size(*phdr),
{
    let ghost info = match seg_info {
        Some(i) => Some(*i),
        None => None::<(u64, u64, u64)>,
    };
    let sz: usize = if phdr.p_memsz >= phdr.p_filesz {
        phdr.p_memsz as usize
    } else {
        phdr.p_filesz as usize
    };
    let (file_offset, file_size, compression) = match seg_info {
        Some(i) => *i,
        None => (phdr.p_offset as u64, phdr.p_filesz as u64, 1u64),
    };
    let copy_size: u64 = if file_size <= sz as u64 {
        file_size
    } else {
        sz as u64
    };
    let end = file_offset.wrapping_add(copy_size);
    let len = buf.len() as u64;
    if end <= len && file_offset > u64::MAX - copy_size {
        return Err(ElfError::OutOfBounds);
    }
    let mut output = vec![0u8; sz];
    if end <= len {
        let off = file_offset as usize;
        let n = copy_size as usize;
        let mut k: usize = 0;
        while k < n
            invariant
                k <= n,
                n <= sz,
                off + n <= buf.len(),
                output@.len() == sz,
                forall|m: int| 0 <= m < k ==> output@[m] == buf@[off + m],
                forall|m: int| k <= m < sz ==> output@[m] == 0u8,
            decreases n - k,
        {
            output[k] = buf[off + k];
            k = k + 1;
        }
        assert(output@ =~= buf@.subrange(off as int, off + n) + zeros((sz - n) as nat));
    } else {
        assert(output@ =~= zeros(sz as nat));
    }
    if compression == 2 {
        let n = copy_size as usize;
        let input = vstd::slice::slice_subrange(output.as_slice(), 0, n);
        assert(input@ =~= output@.take(n as int));
        match inflate(input, sz) {
            Some(d) => Ok(d),
            None => Err(ElfError::Decompress),
        }
    } else {
        Ok(output)
    }
}

/// A binary loaded from disk: its text and data segments with their load
/// addresses, the entry point, every program header with its SCE segment
/// information, and the file itself.
pub struct LoadedBinary {
    pub text_seg: Vec<u8>,
    pub data_seg: Vec<u8>,
    pub text_addr: u32,
    pub data_addr: u32,
    pub entry_point: u32,
    pub phdrs: Vec<ElfPhdr>,
    pub segment_infos: Vec<(u64, u64, u64)>,
    pub buf: Vec<u8>,
}

/// Segment `idx` exactly as the file holds it (never inflated), in a zero
/// buffer of its memory size; bytes the file does not hold stay zero.
pub open spec fn spec_load_segment_raw(buf: Seq<u8>, phdr: ElfPhdr, info: Option<(u64, u64, u64)>) -> Seq<u8> {
    let sz = seg_size(phdr);
    let off = match info {
        Some(i) => i.0,
        None => phdr.p_offset as u64,
    };
    let size = match info {
        Some(i) => i.1,
        None => phdr.p_filesz as u64,
    };
    let avail: nat = if off as int <= buf.len() {
        (buf.len() - off) as nat
    } else {
        0
    };
    let copy = min_nat(size as nat, min_nat(sz, avail));
    let prefix = if off as int <= buf.len() {
        buf.subrange(off as int, off + copy)
    } else {
        Seq::empty()
    };
    prefix + zeros((sz - copy) as nat)
}

/// A segment read raw is exactly as long as its memory size.
pub proof fn lemma_raw_segment_len(buf: Seq<u8>, phdr: ElfPhdr, info: Option<(u64, u64, u64)>)
    ensures
        spec_load_segment_raw(buf, phdr, info).len() == seg_size(phdr),
{
}

impl LoadedBinary {
    /// Loads segment `idx` (inflating it where it is compressed).
    pub fn load_segment_by_index(&self, idx: usize) -> (r: Result<Vec<u8>, ElfError>)
        ensures
            idx >= self.phdrs@.len() ==> r == Err::<Vec<u8>, ElfError>(ElfError::SegmentIndex(idx)),
            idx < self.phdrs@.len() ==> match r {
                Ok(v) => spec_load_segment(
                    self.buf@,
                    self.phdrs@[idx as int],
                    if idx < self.segment_infos@.len() {
                        Some(self.segment_infos@[idx as int])
                    } else {
                        None
                    },
                ) == Ok::<Seq<u8>, ElfError>(v@),
                Err(e) => spec_load_segment(
                    self.buf@,
                    self.phdrs@[idx as int],
                    if idx < self.segment_infos@.len() {
                        Some(self.segment_infos@[idx as int])
                    } else {
                        None
                    },
                ) == Err::<Seq<u8>, ElfError>(e),
            },
            r matches Ok(v) ==> idx < self.phdrs@.len() && v@.len() == seg_size(self.phdrs@[idx as int]),
    {
        if idx >= self.phdrs.len() {
            return Err(ElfError::SegmentIndex(idx));
        }
        let info = if idx < self.segment_infos.len() {
            Some(&self.segment_infos[idx])
        } else {
            None
        };
        load_segment(self.buf.as_slice(), &self.phdrs[idx], info)
    }

    /// Segment `idx` exactly as the file holds it (never inflated), in a
    /// zero buffer of its memory size.
    pub fn load_segment_raw(&self, idx: usize) -> (r: Result<Vec<u8>, ElfError>)
        ensures
            idx >= self.phdrs@.len() ==> r == Err::<Vec<u8>, ElfError>(ElfError::SegmentIndex(idx)),
            idx < self.phdrs@.len() ==> (r matches Ok(v) && v@ == spec_load_segment_raw(
                self.buf@,
                self.phdrs@[idx as int],
                if idx < self.segment_infos@.len() {
                    Some(self.segment_infos@[idx as int])
                } else {
                    None
                },
            )),
    {
        if idx >= self.phdrs.len() {
            return Err(ElfError::SegmentIndex(idx));
        }
        let phdr = &self.phdrs[idx];
        let (file_offset, file_size) = if idx < self.segment_infos.len() {
            (self.segment_infos[idx].0, self.segment_infos[idx].1)
        } else {
            (phdr.p_offset as u64, phdr.p_filesz as u64)
        };
        let sz: usize = if phdr.p_memsz >= phdr.p_filesz {
            phdr.p_memsz as usize
        } else {
            phdr.p_filesz as usize
        };
        let len = self.buf.len() as u64;
        let avail: u64 = if file_offset <= len {
            len - file_offset
        } else {
            0
        };
        let lim: u64 = if (sz as u64) <= avail {
            sz as u64
        } else {
            avail
        };
        let copy_size: u64 = if file_size <= lim {
            file_size
        } else {
            lim
        };
        let mut output = vec![0u8; sz];
        let n = copy_size as usize;
        if n > 0 {
            let off = file_offset as usize;
            let mut k: usize = 0;
            while k < n
                invariant
                    k <= n,
                    n <= sz,
                    off + n <= self.buf.len(),
                    output@.len() == sz,
                    forall|m: int| 0 <= m < k ==> output@[m] == self.buf@[off + m],
                    forall|m: int| k <= m < sz ==> output@[m] == 0u8,
                decreases n - k,
            {
                output[k] = self.buf[off + k];
                k = k + 1;
            }
        }
        assert(output@ =~= spec_load_segment_raw(
            self.buf@,
            self.phdrs@[idx as int],
            if idx < self.segment_infos@.len() {
                Some(self.segment_infos@[idx as int])
            } else {
                None
            },
        ));
        Ok(output)
    }
}


/// Names what `goblin::elf::Elf::parse` reports of an ELF image: its program
/// header offset, count and entry size and its entry point, or `None` where
/// the parser refuses the image.
pub uninterp spec fn goblin_elf_header(bytes: Seq<u8>) -> Option<(u64, u16, u16, u64)>;

/// Parses an ELF image with `goblin::elf::Elf::parse` and hands back the
/// header fields the loader reads. The parser is deterministic, so the
/// contract names its result as a function of the bytes.
#[verifier::external_body]
fn parse_elf_header(bytes: &[u8]) -> (r: Option<(u64, u16, u16, u64)>)
    ensures
        r == goblin_elf_header(bytes@),
{
    match goblin::elf::Elf::parse(bytes) {
        Ok(elf) => Some(
            (elf.header.e_phoff, elf.header.e_phnum, elf.header.e_phentsize, elf.header.e_entry),
        ),
        Err(_) => None,
    }
}

/// The segment information of program header `i` of a SELF file whose table
/// starts at `so` (`None` where reading it runs off the file).
pub open spec fn self_seg_info(buf: Seq<u8>, so: u64, i: nat, p: ElfPhdr) -> Option<(u64, u64, u64)> {
    let si = wrapping_add(so, (i * 24) as u64);
    if wrapping_add(si, 24) as int <= buf.len() {
        if si as int + 24 > u64::MAX {
            None
        } else {
            Some((le64(buf, si as int), le64(buf, si + 8), le64(buf, si + 16)))
        }
    } else {
        Some((p.p_offset as u64, p.p_filesz as u64, 1))
    }
}

/// Program header `i` and its segment information.
pub open spec fn phdr_entry(
    buf: Seq<u8>,
    eo: u64,
    phdr_start: u64,
    phentsize: u16,
    is_self_file: bool,
    so: u64,
    i: nat,
) -> Result<(ElfPhdr, (u64, u64, u64)), ElfError> {
    let start = wrapping_add(phdr_start, (i * phentsize) as u64);
    if start as int + 24 > buf.len() - eo {
        Err(ElfError::OutOfBounds)
    } else {
        let base = eo + start;
        let p = ElfPhdr {
            p_type: le32(buf, base),
            p_offset: le32(buf, base + 4),
            p_vaddr: le32(buf, base + 8),
            p_filesz: le32(buf, base + 16),
            p_memsz: le32(buf, base + 20),
        };
        if is_self_file && so > 0 {
            match self_seg_info(buf, so, i, p) {
                Some(info) => Ok((p, info)),
                None => Err(ElfError::OutOfBounds),
            }
        } else {
            Ok((p, (p.p_offset as u64, p.p_filesz as u64, 1)))
        }
    }
}

/// The first `n` program headers with their segment information.
pub open spec fn phdr_table(
    buf: Seq<u8>,
    eo: u64,
    phdr_start: u64,
    phentsize: u16,
    is_self_file: bool,
    so: u64,
    n: nat,
) -> Result<(Seq<ElfPhdr>, Seq<(u64, u64, u64)>), ElfError>
    decreases n,
{
    if n == 0 {
        Ok((Seq::empty(), Seq::empty()))
    } else {
        match phdr_table(buf, eo, phdr_start, phentsize, is_self_file, so, (n - 1) as nat) {
            Err(e) => Err(e),
            Ok((ps, is)) => match phdr_entry(buf, eo, phdr_start, phentsize, is_self_file, so, (n - 1) as nat) {
                Err(e) => Err(e),
                Ok((p, info)) => Ok((ps.push(p), is.push(info))),
            },
        }
    }
}

/// A loaded binary, as plain values.
pub struct LoadedView {
    pub text_seg: Seq<u8>,
    pub data_seg: Seq<u8>,
    pub text_addr: u32,
    pub data_addr: u32,
    pub entry_point: u32,
    pub phdrs: Seq<ElfPhdr>,
    pub segment_infos: Seq<(u64, u64, u64)>,
    pub buf: Seq<u8>,
}

/// Where the ELF image, its program headers and the segment information
/// table start: from the SCE header of a SELF file, all at 0 in a plain ELF.
pub open spec fn spec_container(buf: Seq<u8>) -> Result<(u64, u64, u64), ElfError> {
    if spec_is_self(buf) {
        match spec_self_header(buf) {
            Err(e) => Err(e),
            Ok(h) => Ok((h.elf_offset, h.phdr_offset, h.section_info_offset)),
        }
    } else if spec_is_elf(buf) {
        Ok((0, 0, 0))
    } else {
        Err(ElfError::NotElfOrSelf)
    }
}

/// What loading a file gives: its program headers (from the ELF image, or
/// at the SCE header's offset in a SELF file), its first segment as text
/// and its second as data.
pub open spec fn spec_load_binary(buf: Seq<u8>) -> Result<LoadedView, ElfError> {
    match spec_container(buf) {
        Err(e) => Err(e),
        Ok((eo, po, so)) => if eo as int > buf.len() {
            Err(ElfError::OutOfBounds)
        } else {
            match goblin_elf_header(buf.skip(eo as int)) {
                None => Err(ElfError::BadElf),
                Some((phoff, phnum, phentsize, entry)) => {
                    let self_file = spec_is_self(buf);
                    let ps = if self_file {
                        wrapping_sub(po, eo)
                    } else {
                        phoff
                    };
                    if !self_file && (ps == 0 || phnum == 0) {
                        Err(ElfError::NoProgramHeaders)
                    } else {
                        match phdr_table(buf, eo, ps, phentsize, self_file, so, phnum as nat) {
                            Err(e) => Err(e),
                            Ok((phdrs, infos)) => if phdrs.len() < 2 {
                                Err(ElfError::TooFewSegments(phdrs.len() as usize))
                            } else {
                                match spec_load_segment(buf, phdrs[0], Some(infos[0])) {
                                    Err(e) => Err(e),
                                    Ok(text) => match spec_load_segment(buf, phdrs[1], Some(infos[1])) {
                                        Err(e) => Err(e),
                                        Ok(data) => Ok(
                                            LoadedView {
                                                text_seg: text,
                                                data_seg: data,
                                                text_addr: phdrs[0].p_vaddr,
                                                data_addr: phdrs[1].p_vaddr,
                                                entry_point: entry as u32,
                                                phdrs,
                                                segment_infos: infos,
                                                buf,
                                            },
                                        ),
                                    },
                                }
                            },
                        }
                    }
                },
            }
        },
    }
}

/// The plain values of a loaded binary.
pub open spec fn loaded_view(l: LoadedBinary) -> LoadedView {
    LoadedView {
        text_seg: l.text_seg@,
        data_seg: l.data_seg@,
        text_addr: l.text_addr,
        data_addr: l.data_addr,
        entry_point: l.entry_point,
        phdrs: l.phdrs@,
        segment_infos: l.segment_infos@,
        buf: l.buf@,
    }
}

proof fn lemma_phdr_table_err(
    buf: Seq<u8>,
    eo: u64,
    phdr_start: u64,
    phentsize: u16,
    is_self_file: bool,
    so: u64,
    k: nat,
    n: nat,
)
    requires
        k <= n,
        phdr_table(buf, eo, phdr_start, phentsize, is_self_file, so, k) is Err,
    ensures
        phdr_table(buf, eo, phdr_start, phentsize, is_self_file, so, n) == phdr_table(
            buf,
            eo,
            phdr_start,
            phentsize,
            is_self_file,
            so,
            k,
        ),
    decreases n - k,
{
    if k < n {
        lemma_phdr_table_err(buf, eo, phdr_start, phentsize, is_self_file, so, k, (n - 1) as nat);
    }
}

fn read_phdr_entry(
    buf: &[u8],
    eo: u64,
    phdr_start: u64,
    phentsize: u16,
    is_self_file: bool,
    so: u64,
    i: u64,
) -> (r: Result<(ElfPhdr, (u64, u64, u64)), ElfError>)
    requires
        eo <= buf@.len(),
        i < 0x10000,
    ensures
        r == phdr_entry(buf@, eo, phdr_start, phentsize, is_self_file, so, i as nat),
{
    let len = buf.len() as u64;
    let elf_len = len - eo;
    assert(i * (phentsize as u64) < 0x1_0000_0000) by (nonlinear_arith)
        requires
            i < 0x10000,
            phentsize < 0x10000,
    ;
    let start = phdr_start.wrapping_add(i * phentsize as u64);
    if start > elf_len || elf_len - start < 24 {
        return Err(ElfError::OutOfBounds);
    }
    let base = (eo + start) as usize;
    let p = ElfPhdr {
        p_type: get_u32_le(buf, base),
        p_offset: get_u32_le(buf, base + 4),
        p_vaddr: get_u32_le(buf, base + 8),
        p_filesz: get_u32_le(buf, base + 16),
        p_memsz: get_u32_le(buf, base + 20),
    };
    if is_self_file && so > 0 {
        let si = so.wrapping_add(i * 24);
        if si.wrapping_add(24) <= len {
            if si > u64::MAX - 24 {
                return Err(ElfError::OutOfBounds);
            }
            let s = si as usize;
            Ok((p, (get_u64_le(buf, s), get_u64_le(buf, s + 8), get_u64_le(buf, s + 16))))
        } else {
            Ok((p, (p.p_offset as u64, p.p_filesz as u64, 1)))
        }
    } else {
        Ok((p, (p.p_offset as u64, p.p_filesz as u64, 1)))
    }
}

/// Loads a binary from the bytes of its file: reads the SCE header of a
/// SELF file (or takes a plain ELF as it stands), parses the ELF image,
/// reads every program header with its SCE segment information, and loads
/// the first segment as text and the second as data.
pub fn load_binary_from_bytes(buf: Vec<u8>) -> (r: Result<LoadedBinary, ElfError>)
    ensures
        match r {
            Ok(l) => spec_load_binary(buf@) == Ok::<LoadedView, ElfError>(loaded_view(l)),
            Err(e) => spec_load_binary(buf@) == Err::<LoadedView, ElfError>(e),
        },
        r matches Ok(l) ==> l.phdrs@.len() >= 2 && l.segment_infos@.len() == l.phdrs@.len()
            && l.text_seg@.len() == seg_size(l.phdrs@[0]) && l.data_seg@.len() == seg_size(l.phdrs@[1]),
{
    let self_file = is_self(buf.as_slice());
    let (elf_offset, phdr_offset, section_info_offset) = if self_file {
        match parse_self_header(buf.as_slice()) {
            Err(e) => return Err(e),
            Ok(h) => (h.elf_offset, h.phdr_offset, h.section_info_offset),
        }
    } else if is_elf(buf.as_slice()) {
        (0u64, 0u64, 0u64)
    } else {
        return Err(ElfError::NotElfOrSelf);
    };
    assert(spec_container(buf@) == Ok::<(u64, u64, u64), ElfError>((elf_offset, phdr_offset, section_info_offset)));
    let len = buf.len() as u64;
    if elf_offset > len {
        return Err(ElfError::OutOfBounds);
    }
    let elf_bytes = vstd::slice::slice_subrange(buf.as_slice(), elf_offset as usize, buf.len());
    assert(elf_bytes@ =~= buf@.skip(elf_offset as int));
    let (phoff, phnum, phentsize, entry) = match parse_elf_header(elf_bytes) {
        None => return Err(ElfError::BadElf),
        Some(h) => h,
    };
    let phdr_start = if self_file {
        phdr_offset.wrapping_sub(elf_offset)
    } else {
        phoff
    };
    assert(goblin_elf_header(buf@.skip(elf_offset as int)) == Some((phoff, phnum, phentsize, entry)));
    if !self_file && (phdr_start == 0 || phnum == 0) {
        return Err(ElfError::NoProgramHeaders);
    }
    let mut phdrs: Vec<ElfPhdr> = Vec::new();
    let mut segment_infos: Vec<(u64, u64, u64)> = Vec::new();
    let mut i: u64 = 0;
    while i < phnum as u64
        invariant
            i <= phnum,
            elf_offset <= buf@.len(),
            spec_container(buf@) == Ok::<(u64, u64, u64), ElfError>((elf_offset, phdr_offset, section_info_offset)),
            goblin_elf_header(buf@.skip(elf_offset as int)) == Some((phoff, phnum, phentsize, entry)),
            self_file == spec_is_self(buf@),
            phdr_start == (if self_file { wrapping_sub(phdr_offset, elf_offset) } else { phoff }),
            !(!self_file && (phdr_start == 0 || phnum == 0)),
            phdrs@.len() == i,
            segment_infos@.len() == i,
            phdr_table(buf@, elf_offset, phdr_start, phentsize, self_file, section_info_offset, i as nat)
                == Ok::<(Seq<ElfPhdr>, Seq<(u64, u64, u64)>), ElfError>((phdrs@, segment_infos@)),
        decreases phnum - i,
    {
        match read_phdr_entry(buf.as_slice(), elf_offset, phdr_start, phentsize, self_file, section_info_offset, i) {
            Err(e) => {
                proof {
                    assert(phdr_table(buf@, elf_offset, phdr_start, phentsize, self_file, section_info_offset, (i + 1) as nat)
                        == Err::<(Seq<ElfPhdr>, Seq<(u64, u64, u64)>), ElfError>(e));
                    lemma_phdr_table_err(buf@, elf_offset, phdr_start, phentsize, self_file, section_info_offset, (i + 1) as nat, phnum as nat);
                }
                return Err(e);
            },
            Ok((p, info)) => {
                phdrs.push(p);
                segment_infos.push(info);
            },
        }
        i = i + 1;
    }
    if phdrs.len() < 2 {
        return Err(ElfError::TooFewSegments(phdrs.len()));
    }
    let text_seg = match load_segment(buf.as_slice(), &phdrs[0], Some(&segment_infos[0])) {
        Err(e) => return Err(e),
        Ok(v) => v,
    };
    let data_seg = match load_segment(buf.as_slice(), &phdrs[1], Some(&segment_infos[1])) {
        Err(e) => return Err(e),
        Ok(v) => v,
    };
    let text_addr = phdrs[0].p_vaddr;
    let data_addr = phdrs[1].p_vaddr;
    Ok(
        LoadedBinary {
            text_seg,
            data_seg,
            text_addr,
            data_addr,
            entry_point: #[verifier::truncate] (entry as u32),
            phdrs,
            segment_infos,
            buf,
        },
    )
}

proof fn lemma_phdr_table_entries(
    buf: Seq<u8>,
    eo: u64,
    phdr_start: u64,
    phentsize: u16,
    is_self_file: bool,
    so: u64,
    n: nat,
)
    requires
        phdr_table(buf, eo, phdr_start, phentsize, is_self_file, so, n) is Ok,
    ensures
        ({
            let (ps, is) = phdr_table(buf, eo, phdr_start, phentsize, is_self_file, so, n)->Ok_0;
            &&& ps.len() == n && is.len() == n
            &&& forall|i: int| 0 <= i < n ==> phdr_entry(buf, eo, phdr_start, phentsize, is_self_file, so, i as nat)
                == Ok::<(ElfPhdr, (u64, u64, u64)), ElfError>((ps[i], #[trigger] is[i]))
        }),
    decreases n,
{
    if n > 0 {
        lemma_phdr_table_entries(buf, eo, phdr_start, phentsize, is_self_file, so, (n - 1) as nat);
    }
}

/// In a SELF file whose segment-information table (at the non-zero offset
/// the SCE header gives at 0x58) holds the entry of program header `i`,
/// that header's information is read from the table as three
/// little-endian 64-bit words in the order file offset, length,
/// compression; and an uncompressed text segment whose bytes lie in the
/// file is copied from that file offset.
pub proof fn lemma_self_segment_info(buf: Seq<u8>, i: int)
    requires
        spec_is_self(buf),
        spec_load_binary(buf) is Ok,
        le64(buf, 0x58) > 0,
        0 <= i < spec_load_binary(buf)->Ok_0.phdrs.len(),
        le64(buf, 0x58) + 24 * i + 24 <= buf.len() <= u64::MAX,
    ensures
        ({
            let l = spec_load_binary(buf)->Ok_0;
            let si = le64(buf, 0x58) + 24 * i;
            l.segment_infos[i] == (le64(buf, si), le64(buf, si + 8), le64(buf, si + 16))
        }),
        ({
            let l = spec_load_binary(buf)->Ok_0;
            let so = le64(buf, 0x58) as int;
            let off = le64(buf, so);
            let copy = min_nat(le64(buf, so + 8) as nat, seg_size(l.phdrs[0]));
            i == 0 && le64(buf, so + 16) != 2 && off + copy <= buf.len() ==> l.text_seg.take(copy as int)
                == buf.subrange(off as int, off + copy)
        }),
{
    let (eo, po, so) = spec_container(buf)->Ok_0;
    assert(so == le64(buf, 0x58));
    let (phoff, phnum, phentsize, entry) = goblin_elf_header(buf.skip(eo as int))->Some_0;
    let ps = wrapping_sub(po, eo);
    lemma_phdr_table_entries(buf, eo, ps, phentsize, true, so, phnum as nat);
    let (phdrs, infos) = phdr_table(buf, eo, ps, phentsize, true, so, phnum as nat)->Ok_0;
    let si = wrapping_add(so, (i * 24) as u64);
    assert(si == so + 24 * i);
    assert(wrapping_add(si, 24) == so + 24 * i + 24);
    assert(phdr_entry(buf, eo, ps, phentsize, true, so, i as nat) == Ok::<(ElfPhdr, (u64, u64, u64)), ElfError>((phdrs[i], infos[i])));
}

} // verus!
