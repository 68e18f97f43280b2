//! DOL executables: their header, sections, and patching.

use vstd::prelude::*;
use crate::bytes::{lemma_u32_roundtrip, push_be_u32, read_be_u32, seq_be_u32, splice, u32_be_bytes, write_be_u32};

verus! {

/// A loadable section of a DOL: where it is loaded, and its bytes.
#[derive(Debug)]
pub struct Section {
    pub address: u32,
    pub data: Vec<u8>,
}

/// Abstract content of a section.
pub struct SectionView {
    pub address: u32,
    pub data: Seq<u8>,
}

impl View for Section {
    type V = SectionView;

    open spec fn view(&self) -> SectionView {
        SectionView { address: self.address, data: self.data@ }
    }
}

/// The views of a list of sections.
pub open spec fn sections_view(v: Seq<Section>) -> Seq<SectionView> {
    v.map_values(|s: Section| s@)
}

/// A DOL executable.
#[derive(Debug)]
pub struct DolFile {
    pub text_sections: Vec<Section>,
    pub data_sections: Vec<Section>,
    pub bss_address: u32,
    pub bss_size: u32,
    pub entry_point: u32,
}

impl Default for DolFile {
    fn default() -> (r: Self)
        ensures
            r.text_sections@.len() == 0 && r.data_sections@.len() == 0,
            r.bss_address == 0 && r.bss_size == 0 && r.entry_point == 0,
    {
        DolFile { text_sections: Vec::new(), data_sections: Vec::new(), bss_address: 0, bss_size: 0, entry_point: 0 }
    }
}

/// The 256-byte header of a DOL.
#[derive(Debug, Clone, Copy)]
pub struct DolHeader {
    pub text_section_offsets: [u32; 7],
    pub data_section_offsets: [u32; 11],
    pub text_section_addresses: [u32; 7],
    pub data_section_addresses: [u32; 11],
    pub text_section_sizes: [u32; 7],
    pub data_section_sizes: [u32; 11],
    pub bss_address: u32,
    pub bss_size: u32,
    pub entry_point: u32,
}

/// A patch: a 32-bit word to write at an address.
#[derive(Debug, Clone, Copy, PartialEq, Eq, Structural)]
pub struct Instruction {
    pub address: u32,
    pub data: u32,
}

/// Errors of reading and patching DOLs.
#[derive(Debug, Clone, Copy, PartialEq, Eq, Structural)]
pub enum DolError {
    /// The file ended before a header field or a section.
    UnexpectedEnd,
    /// No section holds the address of a patch.
    PatchNotApplied,
    /// The disc has no main executable.
    NotFound,
}

/// Size of the DOL header.
pub const DOL_HEADER_SIZE: usize = 256;

/// The big-endian bytes of the words of `a`, one after the other.
pub open spec fn words_bytes(a: Seq<u32>) -> Seq<u8>
    decreases a.len(),
{
    if a.len() == 0 {
        Seq::empty()
    } else {
        words_bytes(a.drop_last()) + u32_be_bytes(a.last())
    }
}

/// The 256 bytes of a DOL header: the six tables of words, the three
/// words after them, and zero padding.
pub open spec fn dol_header_bytes(h: DolHeader) -> Seq<u8> {
    words_bytes(
        h.text_section_offsets@ + h.data_section_offsets@ + h.text_section_addresses@
            + h.data_section_addresses@ + h.text_section_sizes@ + h.data_section_sizes@ + seq![
            h.bss_address,
            h.bss_size,
            h.entry_point,
        ],
    ) + Seq::new(28, |_i: int| 0u8)
}

fn push_words(out: &mut Vec<u8>, words: &[u32])
    ensures
        final(out)@ == old(out)@ + words_bytes(words@),
{
    let mut i: usize = 0;
    while i < words.len()
        invariant
            i <= words@.len(),
            out@ == old(out)@ + words_bytes(words@.take(i as int)),
        decreases words@.len() - i,
    {
        push_be_u32(out, words[i]);
        i = i + 1;
        assert(words@.take(i as int).drop_last() =~= words@.take(i - 1));
        assert(out@ =~= old(out)@ + words_bytes(words@.take(i as int)));
    }
    assert(words@.take(i as int) =~= words@);
}

proof fn lemma_words_bytes_concat(a: Seq<u32>, b: Seq<u32>)
    ensures
        words_bytes(a + b) == words_bytes(a) + words_bytes(b),
    decreases b.len(),
{
    if b.len() == 0 {
        assert(a + b =~= a);
        assert(words_bytes(a) + words_bytes(b) =~= words_bytes(a));
    } else {
        lemma_words_bytes_concat(a, b.drop_last());
        assert((a + b).drop_last() =~= a + b.drop_last());
        assert(words_bytes(a + b) =~= words_bytes(a) + words_bytes(b));
    }
}

impl DolHeader {
    pub fn new() -> (r: Self)
        ensures
            r.text_section_offsets@ == Seq::new(7, |_i: int| 0u32),
            r.data_section_offsets@ == Seq::new(11, |_i: int| 0u32),
            r.text_section_addresses@ == Seq::new(7, |_i: int| 0u32),
            r.data_section_addresses@ == Seq::new(11, |_i: int| 0u32),
            r.text_section_sizes@ == Seq::new(7, |_i: int| 0u32),
            r.data_section_sizes@ == Seq::new(11, |_i: int| 0u32),
            r.bss_address == 0 && r.bss_size == 0 && r.entry_point == 0,
    {
        let r = DolHeader {
            text_section_offsets: [0; 7],
            data_section_offsets: [0; 11],
            text_section_addresses: [0; 7],
            data_section_addresses: [0; 11],
            text_section_sizes: [0; 7],
            data_section_sizes: [0; 11],
            bss_address: 0,
            bss_size: 0,
            entry_point: 0,
        };
        assert(r.text_section_offsets@ =~= Seq::new(7, |_i: int| 0u32));
        assert(r.data_section_offsets@ =~= Seq::new(11, |_i: int| 0u32));
        assert(r.text_section_addresses@ =~= Seq::new(7, |_i: int| 0u32));
        assert(r.data_section_addresses@ =~= Seq::new(11, |_i: int| 0u32));
        assert(r.text_section_sizes@ =~= Seq::new(7, |_i: int| 0u32));
        assert(r.data_section_sizes@ =~= Seq::new(11, |_i: int| 0u32));
        r
    }

    /// The 256 bytes of the header.
    pub fn to_bytes(&self) -> (r: Vec<u8>)
        ensures
            r@ == dol_header_bytes(*self),
    {
        let mut data: Vec<u8> = Vec::new();
        push_words(&mut data, self.text_section_offsets.as_slice());
        push_words(&mut data, self.data_section_offsets.as_slice());
        push_words(&mut data, self.text_section_addresses.as_slice());
        push_words(&mut data, self.data_section_addresses.as_slice());
        push_words(&mut data, self.text_section_sizes.as_slice());
        push_words(&mut data, self.data_section_sizes.as_slice());
        let tail = [self.bss_address, self.bss_size, self.entry_point];
        push_words(&mut data, tail.as_slice());
        let mut k: usize = 0;
        let ghost words = data@;
        while k < 28
            invariant
                k <= 28,
                data@ == words + Seq::new(k as nat, |_i: int| 0u8),
            decreases 28 - k,
        {
            data.push(0);
            k = k + 1;
            assert(data@ =~= words + Seq::new(k as nat, |_i: int| 0u8));
        }
        proof {
            let a = self.text_section_offsets@;
            let b = self.data_section_offsets@;
            let c = self.text_section_addresses@;
            let d = self.data_section_addresses@;
            let e = self.text_section_sizes@;
            let f = self.data_section_sizes@;
            let g = tail@;
            assert(g =~= seq![self.bss_address, self.bss_size, self.entry_point]);
            lemma_words_bytes_concat(a, b);
            lemma_words_bytes_concat(a + b, c);
            lemma_words_bytes_concat(a + b + c, d);
            lemma_words_bytes_concat(a + b + c + d, e);
            lemma_words_bytes_concat(a + b + c + d + e, f);
            lemma_words_bytes_concat(a + b + c + d + e + f, g);
            assert(words =~= words_bytes(a + b + c + d + e + f + g));
        }
        data
    }
}


/// Total length of the data of the first `n` sections.
pub open spec fn data_len(v: Seq<SectionView>, n: int) -> int
    decreases n,
{
    if n <= 0 || n > v.len() {
        0
    } else {
        data_len(v, n - 1) + v[n - 1].data.len()
    }
}

/// The data of the first `n` sections, one after the other.
pub open spec fn data_concat(v: Seq<SectionView>, n: int) -> Seq<u8>
    decreases n,
{
    if n <= 0 || n > v.len() {
        Seq::empty()
    } else {
        data_concat(v, n - 1) + v[n - 1].data
    }
}

/// A table of `count` words, its first entries given by `f`, zero past `n`.
pub open spec fn word_table(count: nat, n: int, f: spec_fn(int) -> u32) -> Seq<u32> {
    Seq::new(count, |i: int| if i < n { f(i) } else { 0u32 })
}

/// The header words of a DOL with the text sections `t` and data sections
/// `d`: the sections' file offsets (from 256 on, in order), addresses and
/// sizes, each cut to 32 bits, then the BSS and entry point.
pub open spec fn dol_file_words(t: Seq<SectionView>, d: Seq<SectionView>, bss_address: u32, bss_size: u32, entry_point: u32) -> Seq<u32> {
    word_table(7, t.len() as int, |i: int| (DOL_HEADER_SIZE + data_len(t, i)) as u32)
        + word_table(11, d.len() as int, |i: int| (DOL_HEADER_SIZE + data_len(t, t.len() as int) + data_len(d, i)) as u32)
        + word_table(7, t.len() as int, |i: int| t[i].address)
        + word_table(11, d.len() as int, |i: int| d[i].address)
        + word_table(7, t.len() as int, |i: int| t[i].data.len() as u32)
        + word_table(11, d.len() as int, |i: int| d[i].data.len() as u32)
        + seq![bss_address, bss_size, entry_point]
}

/// The bytes of a DOL: its header, then the text sections' data, then the
/// data sections'.
pub open spec fn dol_file_bytes(t: Seq<SectionView>, d: Seq<SectionView>, bss_address: u32, bss_size: u32, entry_point: u32) -> Seq<u8> {
    words_bytes(dol_file_words(t, d, bss_address, bss_size, entry_point)) + Seq::new(28, |_i: int| 0u8)
        + data_concat(t, t.len() as int) + data_concat(d, d.len() as int)
}

proof fn lemma_data_len_concat(v: Seq<SectionView>, n: int)
    requires
        0 <= n <= v.len(),
    ensures
        data_concat(v, n).len() == data_len(v, n),
        data_len(v, n) >= 0,
    decreases n,
{
    if n > 0 {
        lemma_data_len_concat(v, n - 1);
    }
}

proof fn lemma_data_len_mono(v: Seq<SectionView>, i: int, n: int)
    requires
        0 <= i <= n <= v.len(),
    ensures
        data_len(v, i) <= data_len(v, n),
    decreases n - i,
{
    if i < n {
        lemma_data_len_mono(v, i, n - 1);
    }
}

/// Appends the data of the sections `v`, filling the header tables from
/// index 0 with their offsets (from `start`), addresses and sizes.
fn layout_sections(
    v: &Vec<Section>,
    start: usize,
    out: &mut Vec<u8>,
    offsets: &mut [u32],
    addresses: &mut [u32],
    sizes: &mut [u32],
) -> (end: usize)
    requires
        v@.len() <= old(offsets)@.len(),
        old(offsets)@.len() == old(addresses)@.len() == old(sizes)@.len(),
        start + data_len(sections_view(v@), v@.len() as int) <= usize::MAX,
    ensures
        end == start + data_len(sections_view(v@), v@.len() as int),
        final(out)@ == old(out)@ + data_concat(sections_view(v@), v@.len() as int),
        final(offsets)@.len() == old(offsets)@.len(),
        final(addresses)@.len() == old(addresses)@.len(),
        final(sizes)@.len() == old(sizes)@.len(),
        forall|i: int| 0 <= i < v@.len() ==> final(offsets)@[i] == (start + data_len(sections_view(v@), i)) as u32,
        forall|i: int| 0 <= i < v@.len() ==> final(addresses)@[i] == v@[i].address,
        forall|i: int| 0 <= i < v@.len() ==> final(sizes)@[i] == v@[i].data@.len() as u32,
        forall|i: int| v@.len() <= i < old(offsets)@.len() ==> final(offsets)@[i] == old(offsets)@[i]
            && final(addresses)@[i] == old(addresses)@[i] && final(sizes)@[i] == old(sizes)@[i],
{
    let ghost sv = sections_view(v@);
    let mut offset = start;
    let mut i: usize = 0;
    while i < v.len()
        invariant
            i <= v@.len() <= offsets@.len(),
            offsets@.len() == old(offsets)@.len() == addresses@.len() == sizes@.len(),
            sv == sections_view(v@),
            start + data_len(sv, v@.len() as int) <= usize::MAX,
            offset == start + data_len(sv, i as int),
            out@ == old(out)@ + data_concat(sv, i as int),
            forall|k: int| 0 <= k < i ==> offsets@[k] == (start + data_len(sv, k)) as u32,
            forall|k: int| 0 <= k < i ==> addresses@[k] == v@[k].address,
            forall|k: int| 0 <= k < i ==> sizes@[k] == v@[k].data@.len() as u32,
            forall|k: int| i <= k < offsets@.len() ==> offsets@[k] == old(offsets)@[k]
                && addresses@[k] == old(addresses)@[k] && sizes@[k] == old(sizes)@[k],
        decreases v@.len() - i,
    {
        proof {
            lemma_data_len_mono(sv, i as int + 1, v@.len() as int);
        }
        let section = &v[i];
        offsets[i] = offset as u32;
        addresses[i] = section.address;
        sizes[i] = section.data.len() as u32;
        let n = section.data.len();
        let mut k: usize = 0;
        let ghost before = out@;
        while k < n
            invariant
                k <= n,
                n == section.data@.len(),
                out@ == before + section.data@.take(k as int),
            decreases n - k,
        {
            out.push(section.data[k]);
            k = k + 1;
            assert(out@ =~= before + section.data@.take(k as int));
        }
        assert(section.data@.take(n as int) =~= section.data@);
        offset = offset + n;
        i = i + 1;
        assert(out@ =~= old(out)@ + data_concat(sv, i as int));
    }
    offset
}

impl DolFile {
    /// The views of the text and data sections.
    pub open spec fn text_view(&self) -> Seq<SectionView> {
        sections_view(self.text_sections@)
    }

    pub open spec fn data_view(&self) -> Seq<SectionView> {
        sections_view(self.data_sections@)
    }

    /// Appends the sections of `other`.
    pub fn append(&mut self, other: DolFile)
        ensures
            final(self).text_view() == old(self).text_view() + other.text_view(),
            final(self).data_view() == old(self).data_view() + other.data_view(),
            final(self).bss_address == old(self).bss_address,
            final(self).bss_size == old(self).bss_size,
            final(self).entry_point == old(self).entry_point,
    {
        let mut other = other;
        let ghost ot = other.text_sections@;
        let ghost od = other.data_sections@;
        self.text_sections.append(&mut other.text_sections);
        self.data_sections.append(&mut other.data_sections);
        assert(sections_view(self.text_sections@) =~= sections_view(old(self).text_sections@) + sections_view(ot));
        assert(sections_view(self.data_sections@) =~= sections_view(old(self).data_sections@) + sections_view(od));
    }

    /// The bytes of the DOL: its header, then the text sections' data, then
    /// the data sections'.
    pub fn to_bytes(&self) -> (r: Vec<u8>)
        requires
            self.text_sections@.len() <= 7,
            self.data_sections@.len() <= 11,
            DOL_HEADER_SIZE + data_len(self.text_view(), self.text_sections@.len() as int) + data_len(
                self.data_view(),
                self.data_sections@.len() as int,
            ) <= usize::MAX,
        ensures
            r@ == dol_file_bytes(self.text_view(), self.data_view(), self.bss_address, self.bss_size, self.entry_point),
    {
        let mut header = DolHeader::new();
        header.bss_address = self.bss_address;
        header.bss_size = self.bss_size;
        header.entry_point = self.entry_point;
        let ghost t = self.text_view();
        let ghost d = self.data_view();
        proof {
            lemma_data_len_concat(t, t.len() as int);
            lemma_data_len_concat(d, d.len() as int);
        }
        let mut data: Vec<u8> = Vec::new();
        let mid = layout_sections(
            &self.text_sections,
            DOL_HEADER_SIZE,
            &mut data,
            &mut header.text_section_offsets,
            &mut header.text_section_addresses,
            &mut header.text_section_sizes,
        );
        let _end = layout_sections(
            &self.data_sections,
            mid,
            &mut data,
            &mut header.data_section_offsets,
            &mut header.data_section_addresses,
            &mut header.data_section_sizes,
        );
        let mut bytes = header.to_bytes();
        let ghost hb = bytes@;
        bytes.append(&mut data);
        proof {
            let w = dol_file_words(t, d, self.bss_address, self.bss_size, self.entry_point);
            assert(header.text_section_offsets@ =~= word_table(7, t.len() as int, |i: int| (DOL_HEADER_SIZE + data_len(t, i)) as u32));
            assert(header.data_section_offsets@ =~= word_table(11, d.len() as int, |i: int| (DOL_HEADER_SIZE + data_len(t, t.len() as int) + data_len(d, i)) as u32));
            assert(header.text_section_addresses@ =~= word_table(7, t.len() as int, |i: int| t[i].address));
            assert(header.data_section_addresses@ =~= word_table(11, d.len() as int, |i: int| d[i].address));
            assert(header.text_section_sizes@ =~= word_table(7, t.len() as int, |i: int| t[i].data.len() as u32));
            assert(header.data_section_sizes@ =~= word_table(11, d.len() as int, |i: int| d[i].data.len() as u32));
            assert(hb =~= words_bytes(w) + Seq::new(28, |_i: int| 0u8));
            assert(bytes@ =~= dol_file_bytes(t, d, self.bss_address, self.bss_size, self.entry_point));
        }
        bytes
    }
}


/// The sections that a DOL header lists from table entry `i` on: each
/// entry's offset, address and length, up to the first empty section or
/// `max` entries; none when a field or a section lies past the end of `b`.
pub open spec fn read_sections_spec(b: Seq<u8>, ooff: int, aoff: int, loff: int, max: int, i: int) -> Option<Seq<SectionView>>
    decreases max - i,
{
    if i >= max || i < 0 {
        Some(Seq::empty())
    } else if ooff + 4 * i + 4 > b.len() || aoff + 4 * i + 4 > b.len() || loff + 4 * i + 4 > b.len() {
        None
    } else {
        let off = seq_be_u32(b, ooff + 4 * i);
        let len = seq_be_u32(b, loff + 4 * i);
        if len == 0 {
            Some(Seq::empty())
        } else if off + len > b.len() {
            None
        } else {
            match read_sections_spec(b, ooff, aoff, loff, max, i + 1) {
                None => None,
                Some(rest) => Some(
                    seq![SectionView { address: seq_be_u32(b, aoff + 4 * i), data: b.subrange(off as int, off + len) }]
                        + rest,
                ),
            }
        }
    }
}

/// The DOL that the bytes `b` hold: its text sections, data sections, BSS
/// address and size, and entry point; none when `b` is too short for them.
pub open spec fn parse_dol_spec(b: Seq<u8>) -> Option<(Seq<SectionView>, Seq<SectionView>, u32, u32, u32)> {
    match (read_sections_spec(b, 0x0, 0x48, 0x90, 7, 0), read_sections_spec(b, 0x1c, 0x64, 0xac, 11, 0)) {
        (Some(t), Some(d)) => if b.len() >= 0xe4 {
            Some((t, d, seq_be_u32(b, 0xd8), seq_be_u32(b, 0xdc), seq_be_u32(b, 0xe0)))
        } else {
            None
        },
        _ => None,
    }
}

/// Reads the sections that a DOL header lists.
fn read_sections(data: &[u8], ooff: usize, aoff: usize, loff: usize, max: usize) -> (r: Result<Vec<Section>, DolError>)
    requires
        ooff <= 0x100 && aoff <= 0x100 && loff <= 0x100 && max <= 11,
    ensures
        match read_sections_spec(data@, ooff as int, aoff as int, loff as int, max as int, 0) {
            Some(v) => r matches Ok(secs) && sections_view(secs@) == v,
            None => r == Err::<Vec<Section>, DolError>(DolError::UnexpectedEnd),
        },
{
    let n = data.len();
    let mut sections: Vec<Section> = Vec::new();
    let mut i: usize = 0;
    while i < max
        invariant
            i <= max <= 11,
            ooff <= 0x100 && aoff <= 0x100 && loff <= 0x100,
            n == data@.len(),
            read_sections_spec(data@, ooff as int, aoff as int, loff as int, max as int, 0) == match read_sections_spec(
                data@,
                ooff as int,
                aoff as int,
                loff as int,
                max as int,
                i as int,
            ) {
                None => None,
                Some(rest) => Some(sections_view(sections@) + rest),
            },
        decreases max - i,
    {
        if ooff + 4 * i + 4 > n || aoff + 4 * i + 4 > n || loff + 4 * i + 4 > n {
            return Err(DolError::UnexpectedEnd);
        }
        let offset = read_be_u32(data, ooff + 4 * i);
        let address = read_be_u32(data, aoff + 4 * i);
        let length = read_be_u32(data, loff + 4 * i);
        if length == 0 {
            proof {
                assert(sections_view(sections@) + Seq::<SectionView>::empty() =~= sections_view(sections@));
            }
            return Ok(sections);
        }
        if offset as usize > n || length as usize > n - offset as usize {
            return Err(DolError::UnexpectedEnd);
        }
        let section_data = vstd::slice::slice_to_vec(
            vstd::slice::slice_subrange(data, offset as usize, offset as usize + length as usize),
        );
        let ghost before = sections@;
        sections.push(Section { address, data: section_data });
        proof {
            let sv = SectionView { address, data: data@.subrange(offset as int, offset + length) };
            assert(sections_view(sections@) =~= sections_view(before) + seq![sv]);
            match read_sections_spec(data@, ooff as int, aoff as int, loff as int, max as int, i + 1) {
                None => {},
                Some(rest) => {
                    assert(sections_view(before) + (seq![sv] + rest) =~= sections_view(sections@) + rest);
                },
            }
        }
        i = i + 1;
    }
    proof {
        assert(sections_view(sections@) + Seq::<SectionView>::empty() =~= sections_view(sections@));
    }
    Ok(sections)
}

impl DolFile {
    /// Reads a DOL from its bytes: the sections that its header lists, up to
    /// the first empty one of each kind, and its BSS and entry point. Fails
    /// when a field or a section lies past the end of the bytes.
    pub fn parse(data: &[u8]) -> (r: Result<DolFile, DolError>)
        ensures
            match parse_dol_spec(data@) {
                Some((t, d, bss_address, bss_size, entry_point)) => r matches Ok(f) && f.text_view() == t
                    && f.data_view() == d && f.bss_address == bss_address && f.bss_size == bss_size
                    && f.entry_point == entry_point,
                None => r == Err::<DolFile, DolError>(DolError::UnexpectedEnd),
            },
    {
        let text_sections = match read_sections(data, 0x0, 0x48, 0x90, 7) {
            Ok(s) => s,
            Err(e) => return Err(e),
        };
        let data_sections = match read_sections(data, 0x1c, 0x64, 0xac, 11) {
            Ok(s) => s,
            Err(e) => return Err(e),
        };
        if data.len() < 0xe4 {
            return Err(DolError::UnexpectedEnd);
        }
        let bss_address = read_be_u32(data, 0xd8);
        let bss_size = read_be_u32(data, 0xdc);
        let entry_point = read_be_u32(data, 0xe0);
        Ok(DolFile { text_sections, data_sections, bss_address, bss_size, entry_point })
    }
}


/// The section holds the address `a`.
pub open spec fn section_holds(s: SectionView, a: u32) -> bool {
    s.address <= a && s.address + (s.data.len() as u32) > a
}

/// The first of the sections `secs`, from index `j` on, that holds `a`.
pub open spec fn find_section(secs: Seq<SectionView>, a: u32, j: int) -> Option<int>
    decreases secs.len() - j,
{
    if j < 0 || j >= secs.len() {
        None
    } else if section_holds(secs[j], a) {
        Some(j)
    } else {
        find_section(secs, a, j + 1)
    }
}

/// The search for the section of `a` adds no section's address and size
/// past `u32::MAX`, and the patch fits in the section it finds.
pub open spec fn patch_fits(secs: Seq<SectionView>, ins: Instruction) -> bool {
    let stop = match find_section(secs, ins.address, 0) {
        Some(j) => j,
        None => secs.len() as int,
    };
    &&& forall|k: int| 0 <= k < stop && secs[k].address <= ins.address ==> secs[k].address + (
        secs[k].data.len() as u32) <= u32::MAX
    &&& stop < secs.len() ==> secs[stop].address + (secs[stop].data.len() as u32) <= u32::MAX
        && ins.address - secs[stop].address + 4 <= secs[stop].data.len()
}

/// Every patch that is reached fits (see `patch_fits`): the ones after a
/// patch that finds no section are never reached.
pub open spec fn patches_fit(secs: Seq<SectionView>, ins: Seq<Instruction>) -> bool {
    forall|i: int|
        0 <= i < ins.len() && (forall|j: int| 0 <= j < i ==> find_section(secs, #[trigger] ins[j].address, 0) is Some)
            ==> patch_fits(secs, #[trigger] ins[i])
}

/// The sections after the first `k` patches, and whether all of them found
/// their section.
pub open spec fn patched(secs: Seq<SectionView>, ins: Seq<Instruction>, k: int) -> (Seq<SectionView>, bool)
    decreases k,
{
    if k <= 0 {
        (secs, true)
    } else {
        let (prev, ok) = patched(secs, ins, k - 1);
        if !ok {
            (prev, false)
        } else {
            match find_section(prev, ins[k - 1].address, 0) {
                Some(j) => (
                    prev.update(
                        j,
                        SectionView {
                            address: prev[j].address,
                            data: splice(prev[j].data, ins[k - 1].address - prev[j].address, u32_be_bytes(ins[k - 1].data)),
                        },
                    ),
                    true,
                ),
                None => (prev, false),
            }
        }
    }
}

/// Sections of the same addresses and sizes.
pub open spec fn same_layout(a: Seq<SectionView>, b: Seq<SectionView>) -> bool {
    a.len() == b.len() && forall|k: int| 0 <= k < a.len() ==> (#[trigger] a[k]).address == b[k].address
        && a[k].data.len() == b[k].data.len()
}

proof fn lemma_find_same_layout(a: Seq<SectionView>, b: Seq<SectionView>, x: u32, j: int)
    requires
        same_layout(a, b),
    ensures
        find_section(a, x, j) == find_section(b, x, j),
    decreases a.len() - j,
{
    if 0 <= j < a.len() {
        assert(a[j].address == b[j].address && a[j].data.len() == b[j].data.len());
        lemma_find_same_layout(a, b, x, j + 1);
    }
}

proof fn lemma_find_section(secs: Seq<SectionView>, a: u32, j: int)
    requires
        0 <= j,
    ensures
        find_section(secs, a, j) matches Some(k) ==> j <= k < secs.len() && section_holds(secs[k], a)
            && forall|m: int| j <= m < k ==> !section_holds(#[trigger] secs[m], a),
        find_section(secs, a, j) is None ==> forall|m: int| j <= m < secs.len() ==> !section_holds(#[trigger] secs[m], a),
    decreases secs.len() - j,
{
    if j < secs.len() && !section_holds(secs[j], a) {
        lemma_find_section(secs, a, j + 1);
    }
}

proof fn lemma_patched_layout(secs: Seq<SectionView>, ins: Seq<Instruction>, k: int)
    requires
        0 <= k <= ins.len(),
        patches_fit(secs, ins),
    ensures
        same_layout(patched(secs, ins, k).0, secs),
        patched(secs, ins, k).1 ==> forall|j: int| 0 <= j < k ==> find_section(secs, #[trigger] ins[j].address, 0) is Some,
    decreases k,
{
    if k > 0 {
        lemma_patched_layout(secs, ins, k - 1);
        let (prev, ok) = patched(secs, ins, k - 1);
        if ok {
            lemma_find_same_layout(prev, secs, ins[k - 1].address, 0);
            match find_section(prev, ins[k - 1].address, 0) {
                Some(j) => {
                    lemma_find_section(prev, ins[k - 1].address, 0);
                    assert(patch_fits(secs, ins[k - 1]));
                    let nd = splice(prev[j].data, ins[k - 1].address - prev[j].address, u32_be_bytes(ins[k - 1].data));
                    assert(nd.len() == prev[j].data.len());
                },
                None => {},
            }
        }
    }
}

/// A copy of a section.
fn copy_section(s: &Section) -> (r: Section)
    ensures
        r@ == s@,
{
    Section { address: s.address, data: vstd::slice::slice_to_vec(s.data.as_slice()) }
}

/// Where no section before `k` holds `a`, section `k`'s end does not
/// overflow when it starts at or before `a`.
proof fn lemma_fits_at(secs: Seq<SectionView>, a: u32, k: int)
    requires
        patch_fits(secs, Instruction { address: a, data: 0 }),
        0 <= k < secs.len(),
        secs[k].address <= a,
        forall|m: int| 0 <= m < k ==> !section_holds(#[trigger] secs[m], a),
    ensures
        secs[k].address + (secs[k].data.len() as u32) <= u32::MAX,
{
    lemma_find_section(secs, a, 0);
    match find_section(secs, a, 0) {
        Some(j) => {
            if j < k {
                assert(!section_holds(secs[j], a));
            } else if j > k {
                assert(0 <= k < j && secs[k].address <= a);
            }
        },
        None => {
            assert(0 <= k < secs.len() && secs[k].address <= a);
        },
    }
}

/// Whether a patch fits depends only on the sections' addresses and sizes.
proof fn lemma_patch_fits_layout(a: Seq<SectionView>, b: Seq<SectionView>, x: Instruction, y: Instruction)
    requires
        same_layout(a, b),
        x.address == y.address,
        patch_fits(b, x),
    ensures
        patch_fits(a, y),
{
    lemma_find_same_layout(a, b, x.address, 0);
    lemma_find_section(a, x.address, 0);
    let stop = match find_section(a, x.address, 0) {
        Some(j) => j,
        None => a.len() as int,
    };
    assert forall|k: int| 0 <= k < stop && a[k].address <= y.address implies a[k].address + (a[k].data.len() as u32) <= u32::MAX by {
        assert(a[k].address == b[k].address && a[k].data.len() == b[k].data.len());
    }
    if stop < a.len() {
        assert(a[stop].address == b[stop].address && a[stop].data.len() == b[stop].data.len());
    }
}

/// Once a patch finds no section, the rest change nothing.
proof fn lemma_patched_stuck(secs: Seq<SectionView>, ins: Seq<Instruction>, k: int, n: int)
    requires
        0 <= k <= n,
        !patched(secs, ins, k).1,
    ensures
        patched(secs, ins, n) == patched(secs, ins, k),
    decreases n - k,
{
    if k < n {
        lemma_patched_stuck(secs, ins, k, n - 1);
    }
}

/// The first section of `v` that holds `a`, when the sections before index
/// `base` of `all` (whose sections from `base` on are those of `v`) do not.
fn find_in(v: &Vec<Section>, a: u32, Ghost(all): Ghost<Seq<SectionView>>, Ghost(base): Ghost<int>) -> (r: Option<usize>)
    requires
        base >= 0,
        base + v@.len() <= all.len(),
        forall|k: int| 0 <= k < v@.len() ==> v@[k]@ == #[trigger] all[base + k],
        forall|m: int| 0 <= m < base ==> !section_holds(#[trigger] all[m], a),
        patch_fits(all, Instruction { address: a, data: 0 }),
    ensures
        match r {
            Some(k) => k < v@.len() && find_section(all, a, 0) == Some(base + k),
            None => forall|m: int| 0 <= m < base + v@.len() ==> !section_holds(#[trigger] all[m], a),
        },
{
    proof {
        lemma_find_section(all, a, 0);
    }
    let mut k: usize = 0;
    while k < v.len()
        invariant
            k <= v@.len(),
            base >= 0,
            base + v@.len() <= all.len(),
            forall|q: int| 0 <= q < v@.len() ==> v@[q]@ == #[trigger] all[base + q],
            forall|m: int| 0 <= m < base + k ==> !section_holds(#[trigger] all[m], a),
            patch_fits(all, Instruction { address: a, data: 0 }),
            find_section(all, a, 0) matches Some(j) ==> 0 <= j < all.len() && section_holds(all[j], a)
                && forall|m: int| 0 <= m < j ==> !section_holds(#[trigger] all[m], a),
            find_section(all, a, 0) is None ==> forall|m: int| 0 <= m < all.len() ==> !section_holds(#[trigger] all[m], a),
        decreases v@.len() - k,
    {
        assert(v@[k as int]@ == all[base + k]);
        let s = &v[k];
        if s.address <= a {
            proof {
                lemma_fits_at(all, a, base + k);
            }
            if s.address + s.data.len() as u32 > a {
                proof {
                    assert(s.data@.len() == all[base + k].data.len());
                    assert(section_holds(all[base + k], a));
                    match find_section(all, a, 0) {
                        Some(j) => {
                            if j < base + k {
                                assert(!section_holds(all[j], a));
                            } else if j > base + k {
                                assert(!section_holds(all[base + k], a));
                            }
                        },
                        None => {
                            assert(!section_holds(all[base + k], a));
                        },
                    }
                    assert(find_section(all, a, 0) == Some(base + k));
                }
                return Some(k);
            }
        }
        k = k + 1;
    }
    None
}

impl DolFile {
    /// Applies the patches in order: each writes its word, big-endian, into
    /// the first section (text sections first) that holds its address. Stops
    /// with an error at the first patch that no section holds; the patches
    /// before it stay applied.
    #[verifier::spinoff_prover]
    #[verifier::rlimit(40)]
    pub fn patch(&mut self, instructions: &[Instruction]) -> (r: Result<(), DolError>)
        requires
            patches_fit(old(self).text_view() + old(self).data_view(), instructions@),
        ensures
            ({
                let all = old(self).text_view() + old(self).data_view();
                let (res, ok) = patched(all, instructions@, instructions@.len() as int);
                &&& (r is Ok) == ok
                &&& r is Err ==> r == Err::<(), DolError>(DolError::PatchNotApplied)
                &&& final(self).text_view() == res.take(old(self).text_view().len() as int)
                &&& final(self).data_view() == res.skip(old(self).text_view().len() as int)
                &&& final(self).bss_address == old(self).bss_address
                &&& final(self).bss_size == old(self).bss_size
                &&& final(self).entry_point == old(self).entry_point
            }),
    {
        let ghost all0 = self.text_view() + self.data_view();
        let ghost nt = self.text_view().len() as int;
        let mut i: usize = 0;
        while i < instructions.len()
            invariant
                i <= instructions@.len(),
                all0 == old(self).text_view() + old(self).data_view(),
                nt == old(self).text_view().len(),
                patches_fit(all0, instructions@),
                nt == self.text_view().len(),
                patched(all0, instructions@, i as int).1,
                patched(all0, instructions@, i as int).0 == self.text_view() + self.data_view(),
                self.bss_address == old(self).bss_address,
                self.bss_size == old(self).bss_size,
                self.entry_point == old(self).entry_point,
            decreases instructions@.len() - i,
        {
            let ghost cur = self.text_view() + self.data_view();
            proof {
                lemma_patched_layout(all0, instructions@, i as int);
                lemma_find_same_layout(cur, all0, instructions@[i as int].address, 0);
                assert(patch_fits(all0, instructions@[i as int]));
                assert forall|k: int| 0 <= k < self.text_sections@.len() implies self.text_sections@[k]@ == #[trigger] cur[0 + k] by {}
                assert forall|k: int| 0 <= k < self.data_sections@.len() implies self.data_sections@[k]@ == #[trigger] cur[nt + k] by {}
            }
            let ins = instructions[i];
            let a = ins.address;
            proof {
                lemma_patch_fits_layout(cur, all0, ins, Instruction { address: a, data: 0 });
            }
            let found_text = find_in(&self.text_sections, a, Ghost(cur), Ghost(0int));
            let (is_text, k) = match found_text {
                Some(k) => (true, k),
                None => match find_in(&self.data_sections, a, Ghost(cur), Ghost(nt)) {
                    Some(k) => (false, k),
                    None => {
                        proof {
                            lemma_find_section(cur, a, 0);
                            assert(find_section(cur, a, 0) is None);
                            assert(!patched(all0, instructions@, i + 1).1);
                            lemma_patched_stuck(all0, instructions@, i + 1, instructions@.len() as int);
                            assert(cur.take(nt) =~= self.text_view());
                            assert(cur.skip(nt) =~= self.data_view());
                        }
                        return Err(DolError::PatchNotApplied);
                    },
                },
            };
            let ghost j = if is_text { k as int } else { nt + k };
            proof {
                lemma_find_section(cur, a, 0);
                assert(patch_fits(all0, ins));
            }
            if is_text {
                let mut sec = copy_section(&self.text_sections[k]);
                let index = (a - sec.address) as usize;
                write_be_u32(sec.data.as_mut_slice(), index, ins.data);
                self.text_sections.set(k, sec);
            } else {
                let mut sec = copy_section(&self.data_sections[k]);
                let index = (a - sec.address) as usize;
                write_be_u32(sec.data.as_mut_slice(), index, ins.data);
                self.data_sections.set(k, sec);
            }
            i = i + 1;
            proof {
                let (res, ok) = patched(all0, instructions@, i as int);
                assert(self.text_view() + self.data_view() =~= res);
            }
        }
        proof {
            let (res, ok) = patched(all0, instructions@, i as int);
            assert(res.take(nt) =~= self.text_view());
            assert(res.skip(nt) =~= self.data_view());
        }
        Ok(())
    }
}


/// Word `i` of a table of words reads back where it was written.
proof fn lemma_words_bytes_read(w: Seq<u32>, rest: Seq<u8>, i: int)
    requires
        0 <= i < w.len(),
    ensures
        words_bytes(w).len() == 4 * w.len(),
        seq_be_u32(words_bytes(w) + rest, 4 * i) == w[i],
    decreases w.len(),
{
    let p = w.drop_last();
    let b = words_bytes(w) + rest;
    if i < w.len() - 1 {
        lemma_words_bytes_read(p, u32_be_bytes(w.last()) + rest, i);
        assert(words_bytes(w) + rest =~= words_bytes(p) + (u32_be_bytes(w.last()) + rest));
    } else {
        if p.len() > 0 {
            lemma_words_bytes_read(p, u32_be_bytes(w.last()) + rest, 0);
        }
        assert(words_bytes(p).len() == 4 * p.len()) by {
            if p.len() == 0 {
            }
        }
        lemma_u32_roundtrip(w.last());
        assert(b.subrange(4 * i, 4 * i + 4) =~= u32_be_bytes(w.last()));
        assert(seq_be_u32(b, 4 * i) == seq_be_u32(b.subrange(4 * i, 4 * i + 4), 0));
    }
}

/// The data of section `i` stands at `data_len(v, i)` in the concatenation.
proof fn lemma_data_concat_at(v: Seq<SectionView>, n: int, i: int)
    requires
        0 <= i < n <= v.len(),
    ensures
        data_concat(v, n).subrange(data_len(v, i), data_len(v, i) + v[i].data.len()) == v[i].data,
    decreases n,
{
    lemma_data_len_concat(v, n - 1);
    lemma_data_len_concat(v, i);
    if i < n - 1 {
        lemma_data_concat_at(v, n - 1, i);
        lemma_data_len_mono(v, i + 1, n - 1);
        assert(data_concat(v, n).subrange(data_len(v, i), data_len(v, i) + v[i].data.len())
            =~= data_concat(v, n - 1).subrange(data_len(v, i), data_len(v, i) + v[i].data.len()));
    } else {
        assert(data_concat(v, n).subrange(data_len(v, i), data_len(v, i) + v[i].data.len()) =~= v[i].data);
    }
}

/// The sections of a DOL can be written and read back: at most 7 text and
/// 11 data sections, none of them empty, and all within 4 GiB.
pub open spec fn dol_layout_ok(t: Seq<SectionView>, d: Seq<SectionView>) -> bool {
    &&& t.len() <= 7
    &&& d.len() <= 11
    &&& forall|i: int| 0 <= i < t.len() ==> (#[trigger] t[i]).data.len() > 0
    &&& forall|i: int| 0 <= i < d.len() ==> (#[trigger] d[i]).data.len() > 0
    &&& DOL_HEADER_SIZE + data_len(t, t.len() as int) + data_len(d, d.len() as int) <= u32::MAX
}

/// The header words `w` hold the offset, address and size tables of the
/// sections `v`, with the data of the sections from `base` on.
pub open spec fn tables_hold(w: Seq<u32>, v: Seq<SectionView>, max: int, ooff: int, aoff: int, loff: int, base: int) -> bool {
    &&& forall|k: int| 0 <= k < max ==> w[ooff / 4 + k] == (if k < v.len() { (base + data_len(v, k)) as u32 } else { 0u32 })
    &&& forall|k: int| 0 <= k < max ==> w[aoff / 4 + k] == (if k < v.len() { v[k].address } else { 0u32 })
    &&& forall|k: int| 0 <= k < max ==> w[loff / 4 + k] == (if k < v.len() { v[k].data.len() as u32 } else { 0u32 })
}

/// The section tables of a written DOL read back, from entry `i` on, as
/// the sections `v` from `i` on.
#[verifier::spinoff_prover]
#[verifier::rlimit(60)]
proof fn lemma_read_back_sections(
    b: Seq<u8>,
    w: Seq<u32>,
    v: Seq<SectionView>,
    max: int,
    ooff: int,
    aoff: int,
    loff: int,
    base: int,
    i: int,
)
    requires
        0 <= i <= max,
        v.len() <= max,
        w.len() == 57,
        b.len() >= 0x100,
        b.subrange(0, 228) == words_bytes(w),
        ooff % 4 == 0 && aoff % 4 == 0 && loff % 4 == 0,
        0 <= ooff && ooff + 4 * max <= 228,
        0 <= aoff && aoff + 4 * max <= 228,
        0 <= loff && loff + 4 * max <= 228,
        tables_hold(w, v, max, ooff, aoff, loff, base),
        forall|k: int| 0 <= k < v.len() ==> (#[trigger] v[k]).data.len() > 0,
        0 <= base,
        base + data_len(v, v.len() as int) <= b.len(),
        base + data_len(v, v.len() as int) <= u32::MAX,
        b.subrange(base, base + data_len(v, v.len() as int)) == data_concat(v, v.len() as int),
    ensures
        read_sections_spec(b, ooff, aoff, loff, max, i) == Some(if i < v.len() { v.skip(i) } else { Seq::<SectionView>::empty() }),
    decreases max - i,
{
    if i < max {
        let rest = b.subrange(228, b.len() as int);
        assert(b =~= words_bytes(w) + rest);
        lemma_words_bytes_read(w, rest, ooff / 4 + i);
        lemma_words_bytes_read(w, rest, aoff / 4 + i);
        lemma_words_bytes_read(w, rest, loff / 4 + i);
        assert(4 * (ooff / 4 + i) == ooff + 4 * i);
        assert(4 * (aoff / 4 + i) == aoff + 4 * i);
        assert(4 * (loff / 4 + i) == loff + 4 * i);
        if i < v.len() {
            lemma_read_back_sections(b, w, v, max, ooff, aoff, loff, base, i + 1);
            lemma_data_len_mono(v, i, v.len() as int);
            lemma_data_len_mono(v, i + 1, v.len() as int);
            lemma_data_len_concat(v, v.len() as int);
            lemma_data_len_concat(v, i);
            lemma_data_len_concat(v, i + 1);
            lemma_data_concat_at(v, v.len() as int, i);
            let off = base + data_len(v, i);
            assert(data_len(v, i + 1) == data_len(v, i) + v[i].data.len());
            assert(b.subrange(off, off + v[i].data.len()) =~= b.subrange(base, base + data_len(v, v.len() as int)).subrange(
                data_len(v, i),
                data_len(v, i) + v[i].data.len(),
            ));
            assert(b.subrange(off, off + v[i].data.len()) =~= data_concat(v, v.len() as int).subrange(
                data_len(v, i),
                data_len(v, i) + v[i].data.len(),
            ));
            assert(v.skip(i) =~= seq![v[i]] + (if i + 1 < v.len() { v.skip(i + 1) } else { Seq::<SectionView>::empty() }));
        }
    }
}

/// The text sections of an optional DOL; none without one.
pub open spec fn opt_text(o: Option<DolFile>) -> Seq<SectionView> {
    match o {
        Some(f) => f.text_view(),
        None => Seq::empty(),
    }
}

/// The data sections of an optional DOL; none without one.
pub open spec fn opt_data(o: Option<DolFile>) -> Seq<SectionView> {
    match o {
        Some(f) => f.data_view(),
        None => Seq::empty(),
    }
}

/// Sections of the same sizes hold as many bytes.
proof fn lemma_data_len_same_layout(a: Seq<SectionView>, b: Seq<SectionView>, n: int)
    requires
        same_layout(a, b),
    ensures
        data_len(a, n) == data_len(b, n),
    decreases n,
{
    if n > 0 && n <= a.len() {
        lemma_data_len_same_layout(a, b, n - 1);
    }
}

/// Appends the linked code `intermediate`, when there is some, to the DOL
/// `original`, applies the patches (see `DolFile::patch`) and gives the
/// bytes of the result. Fails when a patch finds no section.
#[verifier::spinoff_prover]
pub fn patch_instructions(original: DolFile, intermediate: Option<DolFile>, instructions: &[Instruction]) -> (r:
    Result<Vec<u8>, DolError>)
    requires
        ({
            let t = original.text_view() + opt_text(intermediate);
            let d = original.data_view() + opt_data(intermediate);
            &&& patches_fit(t + d, instructions@)
            &&& t.len() <= 7 && d.len() <= 11
            &&& DOL_HEADER_SIZE + data_len(t, t.len() as int) + data_len(d, d.len() as int) <= usize::MAX
        }),
    ensures
        ({
            let t = original.text_view() + opt_text(intermediate);
            let d = original.data_view() + opt_data(intermediate);
            let (res, ok) = patched(t + d, instructions@, instructions@.len() as int);
            &&& ok ==> (r matches Ok(bytes) && bytes@ == dol_file_bytes(
                res.take(t.len() as int),
                res.skip(t.len() as int),
                original.bss_address,
                original.bss_size,
                original.entry_point,
            ))
            &&& !ok ==> r == Err::<Vec<u8>, DolError>(DolError::PatchNotApplied)
        }),
{
    let ghost t = original.text_view() + opt_text(intermediate);
    let ghost d = original.data_view() + opt_data(intermediate);
    let mut dol = original;
    match intermediate {
        Some(more) => dol.append(more),
        None => {
            assert(dol.text_view() =~= t);
            assert(dol.data_view() =~= d);
        },
    }
    assert(dol.text_view() == t && dol.data_view() == d);
    match dol.patch(instructions) {
        Ok(()) => {},
        Err(e) => return Err(e),
    }
    proof {
        let all = t + d;
        lemma_patched_layout(all, instructions@, instructions@.len() as int);
        let res = patched(all, instructions@, instructions@.len() as int).0;
        assert(same_layout(res.take(t.len() as int), t)) by {
            assert forall|k: int| 0 <= k < t.len() implies (#[trigger] res.take(t.len() as int)[k]).address
                == t[k].address && res.take(t.len() as int)[k].data.len() == t[k].data.len() by {
                assert(res[k].address == all[k].address);
                assert(all[k] == t[k]);
            }
        }
        assert(same_layout(res.skip(t.len() as int), d)) by {
            assert forall|k: int| 0 <= k < d.len() implies (#[trigger] res.skip(t.len() as int)[k]).address
                == d[k].address && res.skip(t.len() as int)[k].data.len() == d[k].data.len() by {
                assert(res[t.len() + k].address == all[t.len() + k].address);
                assert(all[t.len() + k] == d[k]);
            }
        }
        lemma_data_len_same_layout(res.take(t.len() as int), t, t.len() as int);
        lemma_data_len_same_layout(res.skip(t.len() as int), d, d.len() as int);
    }
    Ok(dol.to_bytes())
}

/// Writing a DOL and reading it back gives its sections, BSS and entry
/// point, when its layout can be written (see `dol_layout_ok`).
pub proof fn lemma_dol_roundtrip(t: Seq<SectionView>, d: Seq<SectionView>, bss_address: u32, bss_size: u32, entry_point: u32)
    requires
        dol_layout_ok(t, d),
    ensures
        parse_dol_spec(dol_file_bytes(t, d, bss_address, bss_size, entry_point)) == Some((t, d, bss_address, bss_size, entry_point)),
{
    let w = dol_file_words(t, d, bss_address, bss_size, entry_point);
    let b = dol_file_bytes(t, d, bss_address, bss_size, entry_point);
    let nt = t.len() as int;
    let nd = d.len() as int;
    lemma_data_len_concat(t, nt);
    lemma_data_len_concat(d, nd);
    lemma_words_bytes_read(w, Seq::new(28, |_i: int| 0u8), 0);
    assert(b.subrange(0, 228) =~= words_bytes(w));
    let tb = DOL_HEADER_SIZE + data_len(t, nt);
    assert(b.subrange(256, tb) =~= data_concat(t, nt));
    assert(b.subrange(tb, tb + data_len(d, nd)) =~= data_concat(d, nd));
    assert forall|k: int| 0 <= k < 7 implies w[0 + k] == (if k < nt { (256 + data_len(t, k)) as u32 } else { 0u32 }) by {}
    assert forall|k: int| 0 <= k < 7 implies w[18 + k] == (if k < nt { t[k].address } else { 0u32 }) by {}
    assert forall|k: int| 0 <= k < 7 implies w[36 + k] == (if k < nt { t[k].data.len() as u32 } else { 0u32 }) by {}
    assert forall|k: int| 0 <= k < 11 implies w[7 + k] == (if k < nd { (tb + data_len(d, k)) as u32 } else { 0u32 }) by {}
    assert forall|k: int| 0 <= k < 11 implies w[25 + k] == (if k < nd { d[k].address } else { 0u32 }) by {}
    assert forall|k: int| 0 <= k < 11 implies w[43 + k] == (if k < nd { d[k].data.len() as u32 } else { 0u32 }) by {}
    assert(tables_hold(w, t, 7, 0, 0x48, 0x90, 256));
    assert(tables_hold(w, d, 11, 0x1c, 0x64, 0xac, tb));
    lemma_read_back_sections(b, w, t, 7, 0, 0x48, 0x90, 256, 0);
    lemma_read_back_sections(b, w, d, 11, 0x1c, 0x64, 0xac, tb, 0);
    assert(t.skip(0) =~= t);
    assert(d.skip(0) =~= d);
    let rest = b.subrange(228, b.len() as int);
    assert(b =~= words_bytes(w) + rest);
    lemma_words_bytes_read(w, rest, 54);
    lemma_words_bytes_read(w, rest, 55);
    lemma_words_bytes_read(w, rest, 56);
}

} // verus!
