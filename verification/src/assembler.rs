//! The two-pass assembler: directive partitioning, symbol table
//! construction, then bytecode emission with reference resolution.
//!
//! The passes are kept separate, as symbol resolution requires knowing
//! section sizes before emission:
//!
//! - partitioning routes tokens into `@code` / `@data` / `@space` buckets;
//! - data layout records data symbols and emits the data words;
//! - section splitting groups the `@code` tokens under their global labels;
//! - sizing computes each section's byte size and its local label offsets;
//! - addressing assigns each section its absolute image address;
//! - emission resolves every reference and produces the flat image.
//!
//! Addresses are 32-bit; an image that would outgrow them is rejected.

use vstd::prelude::*;
use vstd::string::StringSliceAdditionalSpecFns;

use crate::bytes::{be_word_bytes, bytes_eq, dup_bytes, push_be_word, push_bytes};
use crate::errors::{AsmErrV, AsmError};
use crate::lexer::{dup_token, Directive, LabelType, Lexer, Token, TokenV};
use crate::lexer::spec_lex;
use crate::opcode::spec_match_instruction;
use crate::opcode::match_instruction;

verus! {

/// One symbol table entry: a name bound to a byte address.
#[derive(Debug)]
pub struct Sym {
    pub name: Vec<u8>,
    pub addr: u32,
}

/// The mathematical image of a `Sym`.
pub struct SymV {
    pub name: Seq<u8>,
    pub addr: u32,
}

impl View for Sym {
    type V = SymV;

    open spec fn view(&self) -> SymV {
        SymV { name: self.name@, addr: self.addr }
    }
}

impl DeepView for Sym {
    type V = SymV;

    open spec fn deep_view(&self) -> SymV {
        self.view()
    }
}

/// Looks a name up in a symbol table; the latest binding wins.
pub open spec fn lookup_sym(syms: Seq<SymV>, name: Seq<u8>) -> Option<u32>
    decreases syms.len(),
{
    if syms.len() == 0 {
        None
    } else if syms.last().name == name {
        Some(syms.last().addr)
    } else {
        lookup_sym(syms.drop_last(), name)
    }
}

/// The diagnostic text of an error that only machine limits can raise: the
/// assembled image would outgrow 32-bit addressing.
pub open spec fn oversize_text() -> Seq<u8> {
    "image too large".spec_bytes()
}

/// The source text of a directive.
pub open spec fn dirname(d: Directive) -> Seq<u8> {
    match d {
        Directive::Code => "@code".spec_bytes(),
        Directive::Data => "@data".spec_bytes(),
        Directive::Space => "@space".spec_bytes(),
    }
}

/// The name a token carries, for diagnostics; empty for tokens that carry
/// none.
pub open spec fn token_text(t: TokenV) -> Seq<u8> {
    match t {
        TokenV::Label(_, n) => n,
        TokenV::Reference(_, n) => n,
        TokenV::Instruction(n) => n,
        _ => Seq::empty(),
    }
}

// ---------------------------------------------------------------------------
// Pass 0 — directive partitioning
// ---------------------------------------------------------------------------

/// The partitioning state: the open bucket, the three buckets, and which
/// directives have already appeared (each may appear at most once).
pub struct PartStV {
    pub cur: Option<Directive>,
    pub code: Seq<TokenV>,
    pub data: Seq<TokenV>,
    pub space: Seq<TokenV>,
    pub has_code: bool,
    pub has_data: bool,
    pub has_space: bool,
}

/// The empty partitioning state.
pub open spec fn part_init() -> PartStV {
    PartStV {
        cur: None,
        code: Seq::empty(),
        data: Seq::empty(),
        space: Seq::empty(),
        has_code: false,
        has_data: false,
        has_space: false,
    }
}

/// Whether a directive's bucket was already opened.
pub open spec fn part_seen(st: PartStV, d: Directive) -> bool {
    match d {
        Directive::Code => st.has_code,
        Directive::Data => st.has_data,
        Directive::Space => st.has_space,
    }
}

/// Opens a directive's bucket.
pub open spec fn part_open(st: PartStV, d: Directive) -> PartStV {
    PartStV {
        cur: Some(d),
        has_code: st.has_code || d == Directive::Code,
        has_data: st.has_data || d == Directive::Data,
        has_space: st.has_space || d == Directive::Space,
        ..st
    }
}

/// Appends a token to a directive's bucket.
pub open spec fn part_append(st: PartStV, d: Directive, t: TokenV) -> PartStV {
    match d {
        Directive::Code => PartStV { code: st.code.push(t), ..st },
        Directive::Data => PartStV { data: st.data.push(t), ..st },
        Directive::Space => PartStV { space: st.space.push(t), ..st },
    }
}

/// Routes one token: directives open buckets, comments and the end marker
/// vanish, everything else joins the open bucket. A non-blank token before
/// any directive, inside `@space` (which is reserved), or a second
/// occurrence of a directive, is a directive error.
pub open spec fn part_step(st: PartStV, t: TokenV) -> Result<PartStV, AsmErrV> {
    match t {
        TokenV::Directive(d) => if part_seen(st, d) {
            Err(AsmErrV::Directive(dirname(d)))
        } else {
            Ok(part_open(st, d))
        },
        TokenV::Comment(_) => Ok(st),
        TokenV::Eof => Ok(st),
        TokenV::NewLine => match st.cur {
            None => Ok(st),
            Some(d) => Ok(part_append(st, d, t)),
        },
        _ => match st.cur {
            None => Err(AsmErrV::Directive(token_text(t))),
            Some(Directive::Space) => Err(AsmErrV::Directive(token_text(t))),
            Some(d) => Ok(part_append(st, d, t)),
        },
    }
}

/// Partitions a token sequence into directive buckets.
pub open spec fn spec_partition(toks: Seq<TokenV>) -> Result<PartStV, AsmErrV>
    decreases toks.len(),
{
    if toks.len() == 0 {
        Ok(part_init())
    } else {
        match spec_partition(toks.drop_last()) {
            Err(e) => Err(e),
            Ok(st) => part_step(st, toks.last()),
        }
    }
}

// ---------------------------------------------------------------------------
// Pass 1 — data layout
// ---------------------------------------------------------------------------

/// The data layout state: whether the walk stands at the start of a line,
/// the data symbols recorded so far, and the data bytes emitted so far.
pub struct DataStV {
    pub line_start: bool,
    pub syms: Seq<SymV>,
    pub bytes: Seq<u8>,
}

/// The empty data layout state.
pub open spec fn data_init() -> DataStV {
    DataStV { line_start: true, syms: Seq::empty(), bytes: Seq::empty() }
}

/// Walks one `@data` token. A global label must be the first token on its
/// line and is bound to the running byte offset; a constant emits its low
/// 32 bits big-endian; references, instructions and local labels are
/// rejected here.
pub open spec fn data_step(st: DataStV, t: TokenV) -> Result<DataStV, AsmErrV> {
    match t {
        TokenV::NewLine => Ok(DataStV { line_start: true, ..st }),
        TokenV::Label(LabelType::Global, n) => if st.line_start {
            Ok(
                DataStV {
                    line_start: false,
                    syms: st.syms.push(SymV { name: n, addr: st.bytes.len() as u32 }),
                    ..st
                },
            )
        } else {
            Err(AsmErrV::Directive(n))
        },
        TokenV::Label(LabelType::Local, n) => Err(AsmErrV::Encoding(n)),
        TokenV::Constant(v) => if st.bytes.len() + 4 > 0xFFFF_FFFF {
            Err(AsmErrV::Encoding(oversize_text()))
        } else {
            Ok(DataStV { line_start: false, bytes: st.bytes + be_word_bytes(v as u32), ..st })
        },
        TokenV::Reference(_, n) => Err(AsmErrV::Encoding(n)),
        TokenV::Instruction(n) => Err(AsmErrV::Encoding(n)),
        _ => Ok(st),
    }
}

/// Lays out the `@data` bucket: its symbol table and its bytes.
pub open spec fn spec_data_layout(toks: Seq<TokenV>) -> Result<DataStV, AsmErrV>
    decreases toks.len(),
{
    if toks.len() == 0 {
        Ok(data_init())
    } else {
        match spec_data_layout(toks.drop_last()) {
            Err(e) => Err(e),
            Ok(st) => data_step(st, toks.last()),
        }
    }
}

// ---------------------------------------------------------------------------
// Pass 2 — code section splitting
// ---------------------------------------------------------------------------

/// One global section: the tokens belonging to one global label in `@code`.
pub struct SectionV {
    pub name: Seq<u8>,
    pub toks: Seq<TokenV>,
}

/// The splitting state: the open section and the finished ones.
pub struct SplitStV {
    pub cur: Option<SectionV>,
    pub done: Seq<SectionV>,
}

/// The finished sections, the open one closed.
pub open spec fn split_close(st: SplitStV) -> Seq<SectionV> {
    match st.cur {
        None => st.done,
        Some(sec) => st.done.push(sec),
    }
}

/// Walks one `@code` token: a global label opens a new section; newlines
/// and blanks vanish; every other token joins the open section, and is
/// rejected when no section is open yet.
pub open spec fn split_step(st: SplitStV, t: TokenV) -> Result<SplitStV, AsmErrV> {
    match t {
        TokenV::Label(LabelType::Global, n) => Ok(
            SplitStV {
                cur: Some(SectionV { name: n, toks: Seq::empty() }),
                done: split_close(st),
            },
        ),
        TokenV::NewLine => Ok(st),
        TokenV::Comment(_) => Ok(st),
        TokenV::Eof => Ok(st),
        TokenV::Directive(_) => Ok(st),
        _ => match st.cur {
            None => Err(AsmErrV::Encoding(token_text(t))),
            Some(sec) => Ok(
                SplitStV {
                    cur: Some(SectionV { toks: sec.toks.push(t), ..sec }),
                    ..st
                },
            ),
        },
    }
}

/// Folds the `@code` bucket into open/finished sections.
pub open spec fn spec_split_fold(toks: Seq<TokenV>) -> Result<SplitStV, AsmErrV>
    decreases toks.len(),
{
    if toks.len() == 0 {
        Ok(SplitStV { cur: None, done: Seq::empty() })
    } else {
        match spec_split_fold(toks.drop_last()) {
            Err(e) => Err(e),
            Ok(st) => split_step(st, toks.last()),
        }
    }
}

/// Splits the `@code` bucket into its global sections, in order of
/// appearance. An `@code` block without at least one global label is
/// rejected.
pub open spec fn spec_split_sections(toks: Seq<TokenV>, has_code: bool) -> Result<
    Seq<SectionV>,
    AsmErrV,
> {
    match spec_split_fold(toks) {
        Err(e) => Err(e),
        Ok(st) => {
            let secs = split_close(st);
            if has_code && secs.len() == 0 {
                Err(AsmErrV::Encoding("@code".spec_bytes()))
            } else {
                Ok(secs)
            }
        },
    }
}

// ---------------------------------------------------------------------------
// Pass 3 — local offsets and section sizes
// ---------------------------------------------------------------------------

/// One sized section: its tokens, its local labels bound to in-section
/// offsets, and its total byte size.
pub struct SizedSecV {
    pub name: Seq<u8>,
    pub toks: Seq<TokenV>,
    pub locals: Seq<SymV>,
    pub size: u32,
}

/// The sizing state: the running byte count and the local labels recorded
/// so far, each at the offset of the next emitted byte.
pub struct SizeStV {
    pub count: u32,
    pub locals: Seq<SymV>,
}

/// Walks one section token: an instruction takes one byte; a constant or a
/// reference takes four; a local label is bound to the running count.
pub open spec fn size_step(st: SizeStV, t: TokenV) -> Result<SizeStV, AsmErrV> {
    match t {
        TokenV::Label(LabelType::Local, n) => Ok(
            SizeStV { locals: st.locals.push(SymV { name: n, addr: st.count }), ..st },
        ),
        TokenV::Reference(_, _) => if st.count + 4 > 0xFFFF_FFFF {
            Err(AsmErrV::Encoding(oversize_text()))
        } else {
            Ok(SizeStV { count: (st.count + 4) as u32, ..st })
        },
        TokenV::Constant(_) => if st.count + 4 > 0xFFFF_FFFF {
            Err(AsmErrV::Encoding(oversize_text()))
        } else {
            Ok(SizeStV { count: (st.count + 4) as u32, ..st })
        },
        TokenV::Instruction(_) => if st.count + 1 > 0xFFFF_FFFF {
            Err(AsmErrV::Encoding(oversize_text()))
        } else {
            Ok(SizeStV { count: (st.count + 1) as u32, ..st })
        },
        _ => Ok(st),
    }
}

/// Folds one section's tokens into its local map and byte count.
pub open spec fn spec_size_fold(toks: Seq<TokenV>) -> Result<SizeStV, AsmErrV>
    decreases toks.len(),
{
    if toks.len() == 0 {
        Ok(SizeStV { count: 0, locals: Seq::empty() })
    } else {
        match spec_size_fold(toks.drop_last()) {
            Err(e) => Err(e),
            Ok(st) => size_step(st, toks.last()),
        }
    }
}

/// Sizes one section.
pub open spec fn spec_size_section(sec: SectionV) -> Result<SizedSecV, AsmErrV> {
    match spec_size_fold(sec.toks) {
        Err(e) => Err(e),
        Ok(st) => Ok(SizedSecV { name: sec.name, toks: sec.toks, locals: st.locals, size: st.count }),
    }
}

/// Sizes every section, in order.
pub open spec fn spec_size_sections(secs: Seq<SectionV>) -> Result<Seq<SizedSecV>, AsmErrV>
    decreases secs.len(),
{
    if secs.len() == 0 {
        Ok(Seq::empty())
    } else {
        match spec_size_sections(secs.drop_last()) {
            Err(e) => Err(e),
            Ok(done) => match spec_size_section(secs.last()) {
                Err(e) => Err(e),
                Ok(s) => Ok(done.push(s)),
            },
        }
    }
}

// ---------------------------------------------------------------------------
// Pass 4 — global address assignment
// ---------------------------------------------------------------------------

/// The addressing state: the next free address and the addresses assigned
/// so far, one per section in order.
pub struct AddrStV {
    pub next: u32,
    pub addrs: Seq<u32>,
}

/// Assigns one section the next free address and advances it by the
/// section's size.
pub open spec fn addr_step(st: AddrStV, size: u32) -> Result<AddrStV, AsmErrV> {
    if st.next + size > 0xFFFF_FFFF {
        Err(AsmErrV::Encoding(oversize_text()))
    } else {
        Ok(AddrStV { next: (st.next + size) as u32, addrs: st.addrs.push(st.next) })
    }
}

/// Folds the sized sections into their address list, starting right after
/// the preamble and the data region.
pub open spec fn spec_addr_fold(sized: Seq<SizedSecV>, base: u32) -> Result<AddrStV, AsmErrV>
    decreases sized.len(),
{
    if sized.len() == 0 {
        Ok(AddrStV { next: base, addrs: Seq::empty() })
    } else {
        match spec_addr_fold(sized.drop_last(), base) {
            Err(e) => Err(e),
            Ok(st) => addr_step(st, sized.last().size),
        }
    }
}

/// The addresses of the sections: the first section starts at
/// `6 + |data bytes|`, and each next one where the previous ended.
pub open spec fn spec_assign_addresses(data_len: int, sized: Seq<SizedSecV>) -> Result<
    AddrStV,
    AsmErrV,
> {
    if 6 + data_len > 0xFFFF_FFFF {
        Err(AsmErrV::Encoding(oversize_text()))
    } else {
        spec_addr_fold(sized, (6 + data_len) as u32)
    }
}

/// The code symbol table: each section's name at its assigned address.
pub open spec fn spec_code_syms(sized: Seq<SizedSecV>, addrs: Seq<u32>) -> Seq<SymV> {
    Seq::new(sized.len(), |i: int| SymV { name: sized[i].name, addr: addrs[i] })
}

/// The data symbols rebased to absolute image addresses (their data-region
/// offsets shifted past the 6-byte preamble).
pub open spec fn spec_data_syms_abs(syms: Seq<SymV>) -> Result<Seq<SymV>, AsmErrV>
    decreases syms.len(),
{
    if syms.len() == 0 {
        Ok(Seq::empty())
    } else {
        match spec_data_syms_abs(syms.drop_last()) {
            Err(e) => Err(e),
            Ok(done) => if syms.last().addr + 6 > 0xFFFF_FFFF {
                Err(AsmErrV::Encoding(oversize_text()))
            } else {
                Ok(
                    done.push(
                        SymV { name: syms.last().name, addr: (syms.last().addr + 6) as u32 },
                    ),
                )
            },
        }
    }
}

// ---------------------------------------------------------------------------
// Pass 5 — emission
// ---------------------------------------------------------------------------

/// The bytes one section token emits: the opcode byte of an instruction,
/// the low 32 bits of a constant, the resolved address of a reference.
/// Local references resolve only in the enclosing section's local map, and
/// come out absolute: the section address plus the local offset.
pub open spec fn spec_emit_token(
    t: TokenV,
    locals: Seq<SymV>,
    secaddr: u32,
    globals: Seq<SymV>,
) -> Result<Seq<u8>, AsmErrV> {
    match t {
        TokenV::Instruction(n) => match spec_match_instruction(n) {
            None => Err(AsmErrV::Encoding(n)),
            Some(info) => Ok(seq![info.code]),
        },
        TokenV::Constant(v) => Ok(be_word_bytes(v as u32)),
        TokenV::Reference(LabelType::Global, n) => match lookup_sym(globals, n) {
            None => Err(AsmErrV::Symbol(n)),
            Some(a) => Ok(be_word_bytes(a)),
        },
        TokenV::Reference(LabelType::Local, n) => match lookup_sym(locals, n) {
            None => Err(AsmErrV::Symbol(n)),
            Some(off) => if secaddr + off > 0xFFFF_FFFF {
                Err(AsmErrV::Encoding(oversize_text()))
            } else {
                Ok(be_word_bytes((secaddr + off) as u32))
            },
        },
        _ => Ok(Seq::empty()),
    }
}

/// The bytes of one section: its tokens' bytes, concatenated in order.
pub open spec fn spec_emit_section(
    toks: Seq<TokenV>,
    locals: Seq<SymV>,
    secaddr: u32,
    globals: Seq<SymV>,
) -> Result<Seq<u8>, AsmErrV>
    decreases toks.len(),
{
    if toks.len() == 0 {
        Ok(Seq::empty())
    } else {
        match spec_emit_section(toks.drop_last(), locals, secaddr, globals) {
            Err(e) => Err(e),
            Ok(done) => match spec_emit_token(toks.last(), locals, secaddr, globals) {
                Err(e) => Err(e),
                Ok(b) => Ok(done + b),
            },
        }
    }
}

/// The bytes of all sections, concatenated in emission order.
pub open spec fn spec_emit_sections(
    sized: Seq<SizedSecV>,
    addrs: Seq<u32>,
    globals: Seq<SymV>,
) -> Result<Seq<u8>, AsmErrV>
    decreases sized.len(),
{
    if sized.len() == 0 {
        Ok(Seq::empty())
    } else {
        match spec_emit_sections(sized.drop_last(), addrs.drop_last(), globals) {
            Err(e) => Err(e),
            Ok(done) => match spec_emit_section(
                sized.last().toks,
                sized.last().locals,
                addrs.last(),
                globals,
            ) {
                Err(e) => Err(e),
                Ok(b) => Ok(done + b),
            },
        }
    }
}

/// The 6-byte preamble: an absolute jump to `._entry`, then a padding byte.
pub open spec fn spec_preamble(entry: u32) -> Seq<u8> {
    seq![0x88u8] + be_word_bytes(entry) + seq![0x00u8]
}

/// The whole image, given the laid-out data and the sized sections: the
/// preamble, the data region, and the code sections in order. The entry
/// address is the address of the code section named `._entry`; its absence
/// is a fatal symbol error, found before any bytes are assembled.
pub open spec fn spec_emit(
    dsyms: Seq<SymV>,
    dbytes: Seq<u8>,
    sized: Seq<SizedSecV>,
    addrs: Seq<u32>,
) -> Result<Seq<u8>, AsmErrV> {
    match spec_data_syms_abs(dsyms) {
        Err(e) => Err(e),
        Ok(data_abs) => {
            let code_syms = spec_code_syms(sized, addrs);
            let globals = code_syms + data_abs;
            match lookup_sym(code_syms, "._entry".spec_bytes()) {
                None => Err(AsmErrV::Symbol("._entry".spec_bytes())),
                Some(entry) => match spec_emit_sections(sized, addrs, globals) {
                    Err(e) => Err(e),
                    Ok(body) => Ok(spec_preamble(entry) + dbytes + body),
                },
            }
        },
    }
}

/// The bytes of an emission result that succeeded.
pub open spec fn res_ok_bytes(r: Result<Seq<u8>, AsmErrV>) -> Seq<u8> {
    match r {
        Ok(b) => b,
        Err(_) => Seq::empty(),
    }
}

// ---------------------------------------------------------------------------
// Error persistence: once a pass fails, walking further tokens cannot
// change the diagnostic
// ---------------------------------------------------------------------------

proof fn lemma_partition_err(toks: Seq<TokenV>, i: int)
    requires
        0 <= i <= toks.len(),
        spec_partition(toks.take(i)) is Err,
    ensures
        spec_partition(toks) == spec_partition(toks.take(i)),
    decreases toks.len() - i,
{
    if i < toks.len() {
        assert(toks.take(i + 1).drop_last() =~= toks.take(i));
        lemma_partition_err(toks, i + 1);
    } else {
        assert(toks.take(i) =~= toks);
    }
}

proof fn lemma_data_layout_err(toks: Seq<TokenV>, i: int)
    requires
        0 <= i <= toks.len(),
        spec_data_layout(toks.take(i)) is Err,
    ensures
        spec_data_layout(toks) == spec_data_layout(toks.take(i)),
    decreases toks.len() - i,
{
    if i < toks.len() {
        assert(toks.take(i + 1).drop_last() =~= toks.take(i));
        lemma_data_layout_err(toks, i + 1);
    } else {
        assert(toks.take(i) =~= toks);
    }
}

proof fn lemma_split_fold_err(toks: Seq<TokenV>, i: int)
    requires
        0 <= i <= toks.len(),
        spec_split_fold(toks.take(i)) is Err,
    ensures
        spec_split_fold(toks) == spec_split_fold(toks.take(i)),
    decreases toks.len() - i,
{
    if i < toks.len() {
        assert(toks.take(i + 1).drop_last() =~= toks.take(i));
        lemma_split_fold_err(toks, i + 1);
    } else {
        assert(toks.take(i) =~= toks);
    }
}

proof fn lemma_size_fold_err(toks: Seq<TokenV>, i: int)
    requires
        0 <= i <= toks.len(),
        spec_size_fold(toks.take(i)) is Err,
    ensures
        spec_size_fold(toks) == spec_size_fold(toks.take(i)),
    decreases toks.len() - i,
{
    if i < toks.len() {
        assert(toks.take(i + 1).drop_last() =~= toks.take(i));
        lemma_size_fold_err(toks, i + 1);
    } else {
        assert(toks.take(i) =~= toks);
    }
}

proof fn lemma_size_sections_err(secs: Seq<SectionV>, i: int)
    requires
        0 <= i <= secs.len(),
        spec_size_sections(secs.take(i)) is Err,
    ensures
        spec_size_sections(secs) == spec_size_sections(secs.take(i)),
    decreases secs.len() - i,
{
    if i < secs.len() {
        assert(secs.take(i + 1).drop_last() =~= secs.take(i));
        lemma_size_sections_err(secs, i + 1);
    } else {
        assert(secs.take(i) =~= secs);
    }
}

proof fn lemma_addr_fold_err(sized: Seq<SizedSecV>, base: u32, i: int)
    requires
        0 <= i <= sized.len(),
        spec_addr_fold(sized.take(i), base) is Err,
    ensures
        spec_addr_fold(sized, base) == spec_addr_fold(sized.take(i), base),
    decreases sized.len() - i,
{
    if i < sized.len() {
        assert(sized.take(i + 1).drop_last() =~= sized.take(i));
        lemma_addr_fold_err(sized, base, i + 1);
    } else {
        assert(sized.take(i) =~= sized);
    }
}

proof fn lemma_data_syms_abs_err(syms: Seq<SymV>, i: int)
    requires
        0 <= i <= syms.len(),
        spec_data_syms_abs(syms.take(i)) is Err,
    ensures
        spec_data_syms_abs(syms) == spec_data_syms_abs(syms.take(i)),
    decreases syms.len() - i,
{
    if i < syms.len() {
        assert(syms.take(i + 1).drop_last() =~= syms.take(i));
        lemma_data_syms_abs_err(syms, i + 1);
    } else {
        assert(syms.take(i) =~= syms);
    }
}

proof fn lemma_emit_section_err(toks: Seq<TokenV>, locals: Seq<SymV>, secaddr: u32, globals: Seq<SymV>, i: int)
    requires
        0 <= i <= toks.len(),
        spec_emit_section(toks.take(i), locals, secaddr, globals) is Err,
    ensures
        spec_emit_section(toks, locals, secaddr, globals) == spec_emit_section(
            toks.take(i),
            locals,
            secaddr,
            globals,
        ),
    decreases toks.len() - i,
{
    if i < toks.len() {
        assert(toks.take(i + 1).drop_last() =~= toks.take(i));
        lemma_emit_section_err(toks, locals, secaddr, globals, i + 1);
    } else {
        assert(toks.take(i) =~= toks);
    }
}

proof fn lemma_emit_sections_err(sized: Seq<SizedSecV>, addrs: Seq<u32>, globals: Seq<SymV>, i: int)
    requires
        0 <= i <= sized.len(),
        sized.len() == addrs.len(),
        spec_emit_sections(sized.take(i), addrs.take(i), globals) is Err,
    ensures
        spec_emit_sections(sized, addrs, globals) == spec_emit_sections(
            sized.take(i),
            addrs.take(i),
            globals,
        ),
    decreases sized.len() - i,
{
    if i < sized.len() {
        assert(sized.take(i + 1).drop_last() =~= sized.take(i));
        assert(addrs.take(i + 1).drop_last() =~= addrs.take(i));
        lemma_emit_sections_err(sized, addrs, globals, i + 1);
    } else {
        assert(sized.take(i) =~= sized);
        assert(addrs.take(i) =~= addrs);
    }
}

// ---------------------------------------------------------------------------
// Executable passes
// ---------------------------------------------------------------------------

/// The source text of a directive, for diagnostics.
fn dirtext(d: Directive) -> (r: Vec<u8>)
    ensures
        r@ == dirname(d),
{
    match d {
        Directive::Code => vstd::slice::slice_to_vec("@code".as_bytes()),
        Directive::Data => vstd::slice::slice_to_vec("@data".as_bytes()),
        Directive::Space => vstd::slice::slice_to_vec("@space".as_bytes()),
    }
}

/// The name a token carries, copied for a diagnostic.
fn token_text_vec(t: &Token) -> (r: Vec<u8>)
    ensures
        r@ == token_text(t@),
{
    match t {
        Token::Label(_, n) => dup_bytes(n),
        Token::Reference(_, n) => dup_bytes(n),
        Token::Instruction(n) => dup_bytes(n),
        _ => Vec::new(),
    }
}

/// The diagnostic of an image that would outgrow 32-bit addressing.
fn oversize_err() -> (e: AsmError)
    ensures
        e@ == AsmErrV::Encoding(oversize_text()),
{
    AsmError::Encoding(vstd::slice::slice_to_vec("image too large".as_bytes()))
}

/// The directive buckets of a source file, with a flag for each directive
/// that appeared.
pub struct Buckets {
    pub code: Vec<Token>,
    pub data: Vec<Token>,
    pub space: Vec<Token>,
    pub has_code: bool,
    pub has_data: bool,
    pub has_space: bool,
}

/// Whether the buckets carry the partitioning state's contents.
pub open spec fn buckets_match(b: Buckets, st: PartStV) -> bool {
    &&& b.code.deep_view() == st.code
    &&& b.data.deep_view() == st.data
    &&& b.space.deep_view() == st.space
    &&& b.has_code == st.has_code
    &&& b.has_data == st.has_data
    &&& b.has_space == st.has_space
}

/// Routes each token into the bucket of the directive that is open where
/// it stands. Tokens before any directive, tokens inside the reserved
/// `@space`, and repeated directives are fatal.
pub fn partition_tokens(toks: &Vec<Token>) -> (r: Result<Buckets, AsmError>)
    ensures
        match r {
            Ok(b) => match spec_partition(toks.deep_view()) {
                Ok(st) => buckets_match(b, st),
                Err(_) => false,
            },
            Err(e) => spec_partition(toks.deep_view()) == Err::<PartStV, AsmErrV>(e@),
        },
{
    let ghost tv = toks.deep_view();
    let mut code: Vec<Token> = Vec::new();
    let mut data: Vec<Token> = Vec::new();
    let mut space: Vec<Token> = Vec::new();
    let mut has_code = false;
    let mut has_data = false;
    let mut has_space = false;
    let mut cur: Option<Directive> = None;
    let mut i: usize = 0;
    proof {
        assert(tv.take(0) =~= Seq::<TokenV>::empty());
        assert(code.deep_view() =~= Seq::<TokenV>::empty());
        assert(data.deep_view() =~= Seq::<TokenV>::empty());
        assert(space.deep_view() =~= Seq::<TokenV>::empty());
    }
    while i < toks.len()
        invariant
            i <= tv.len(),
            tv == toks.deep_view(),
            tv.len() == toks@.len(),
            spec_partition(tv.take(i as int)) == Ok::<PartStV, AsmErrV>(
                (PartStV {
                    cur: cur,
                    code: code.deep_view(),
                    data: data.deep_view(),
                    space: space.deep_view(),
                    has_code: has_code,
                    has_data: has_data,
                    has_space: has_space,
                }),
            ),
        decreases tv.len() - i,
    {
        let ghost st = (PartStV {
            cur: cur,
            code: code.deep_view(),
            data: data.deep_view(),
            space: space.deep_view(),
            has_code: has_code,
            has_data: has_data,
            has_space: has_space,
        });
        proof {
            assert(tv.take(i + 1).drop_last() =~= tv.take(i as int));
            assert(tv.take(i + 1).last() == tv[i as int]);
        }
        let t = &toks[i];
        match t {
            Token::Directive(d) => {
                let seen = match d {
                    Directive::Code => has_code,
                    Directive::Data => has_data,
                    Directive::Space => has_space,
                };
                if seen {
                    proof {
                        lemma_partition_err(tv, i + 1);
                    }
                    return Err(AsmError::Directive(dirtext(*d)));
                }
                match d {
                    Directive::Code => {
                        has_code = true;
                    },
                    Directive::Data => {
                        has_data = true;
                    },
                    Directive::Space => {
                        has_space = true;
                    },
                }
                cur = Some(*d);
            },
            Token::Comment(_) => {},
            Token::Eof => {},
            Token::NewLine => {
                match cur {
                    None => {},
                    Some(d) => {
                        let ghost dv0 = match d {
                            Directive::Code => code.deep_view(),
                            Directive::Data => data.deep_view(),
                            Directive::Space => space.deep_view(),
                        };
                        match d {
                            Directive::Code => code.push(Token::NewLine),
                            Directive::Data => data.push(Token::NewLine),
                            Directive::Space => space.push(Token::NewLine),
                        }
                        proof {
                            match d {
                                Directive::Code => {
                                    assert(code.deep_view() =~= dv0.push(TokenV::NewLine));
                                },
                                Directive::Data => {
                                    assert(data.deep_view() =~= dv0.push(TokenV::NewLine));
                                },
                                Directive::Space => {
                                    assert(space.deep_view() =~= dv0.push(TokenV::NewLine));
                                },
                            }
                        }
                    },
                }
            },
            _ => {
                match cur {
                    None => {
                        proof {
                            lemma_partition_err(tv, i + 1);
                        }
                        return Err(AsmError::Directive(token_text_vec(t)));
                    },
                    Some(Directive::Space) => {
                        proof {
                            lemma_partition_err(tv, i + 1);
                        }
                        return Err(AsmError::Directive(token_text_vec(t)));
                    },
                    Some(d) => {
                        let copy = dup_token(t);
                        let ghost dv0 = match d {
                            Directive::Code => code.deep_view(),
                            Directive::Data => data.deep_view(),
                            Directive::Space => space.deep_view(),
                        };
                        match d {
                            Directive::Code => code.push(copy),
                            Directive::Data => data.push(copy),
                            Directive::Space => space.push(copy),
                        }
                        proof {
                            match d {
                                Directive::Code => {
                                    assert(code.deep_view() =~= dv0.push(tv[i as int]));
                                },
                                Directive::Data => {
                                    assert(data.deep_view() =~= dv0.push(tv[i as int]));
                                },
                                Directive::Space => {
                                    assert(space.deep_view() =~= dv0.push(tv[i as int]));
                                },
                            }
                        }
                    },
                }
            },
        }
        i += 1;
    }
    proof {
        assert(tv.take(tv.len() as int) =~= tv);
    }
    Ok(
        Buckets {
            code: code,
            data: data,
            space: space,
            has_code: has_code,
            has_data: has_data,
            has_space: has_space,
        },
    )
}

/// The laid-out `@data` region: its symbol table (offsets into the data
/// region) and its bytes.
pub struct DataLayout {
    pub syms: Vec<Sym>,
    pub bytes: Vec<u8>,
}

/// Whether the layout carries the data state's contents.
pub open spec fn data_layout_matches(d: DataLayout, st: DataStV) -> bool {
    d.syms.deep_view() == st.syms && d.bytes@ == st.bytes
}

/// Walks the `@data` bucket: records each global label at its running byte
/// offset, and emits each constant's low 32 bits big-endian.
pub fn layout_data(toks: &Vec<Token>) -> (r: Result<DataLayout, AsmError>)
    ensures
        match r {
            Ok(d) => match spec_data_layout(toks.deep_view()) {
                Ok(st) => data_layout_matches(d, st),
                Err(_) => false,
            },
            Err(e) => spec_data_layout(toks.deep_view()) == Err::<DataStV, AsmErrV>(e@),
        },
{
    let ghost tv = toks.deep_view();
    let mut line_start = true;
    let mut syms: Vec<Sym> = Vec::new();
    let mut bytes: Vec<u8> = Vec::new();
    let mut i: usize = 0;
    proof {
        assert(tv.take(0) =~= Seq::<TokenV>::empty());
        assert(syms.deep_view() =~= Seq::<SymV>::empty());
    }
    while i < toks.len()
        invariant
            i <= tv.len(),
            tv == toks.deep_view(),
            tv.len() == toks@.len(),
            bytes@.len() <= 0xFFFF_FFFF,
            spec_data_layout(tv.take(i as int)) == Ok::<DataStV, AsmErrV>(
                (DataStV { line_start: line_start, syms: syms.deep_view(), bytes: bytes@ }),
            ),
        decreases tv.len() - i,
    {
        proof {
            assert(tv.take(i + 1).drop_last() =~= tv.take(i as int));
            assert(tv.take(i + 1).last() == tv[i as int]);
        }
        let t = &toks[i];
        match t {
            Token::NewLine => {
                line_start = true;
            },
            Token::Label(LabelType::Global, n) => {
                if line_start {
                    let ghost sv0 = syms.deep_view();
                    let off = bytes.len() as u32;
                    syms.push(Sym { name: dup_bytes(n), addr: off });
                    line_start = false;
                    proof {
                        assert(syms.deep_view() =~= sv0.push(SymV { name: n@, addr: off }));
                    }
                } else {
                    proof {
                        lemma_data_layout_err(tv, i + 1);
                    }
                    return Err(AsmError::Directive(dup_bytes(n)));
                }
            },
            Token::Label(LabelType::Local, n) => {
                proof {
                    lemma_data_layout_err(tv, i + 1);
                }
                return Err(AsmError::Encoding(dup_bytes(n)));
            },
            Token::Constant(v) => {
                if bytes.len() >= 0xFFFF_FFFC {
                    proof {
                        lemma_data_layout_err(tv, i + 1);
                    }
                    return Err(oversize_err());
                }
                let w: u32 = #[verifier::truncate] (*v as u32);
                push_be_word(&mut bytes, w);
                line_start = false;
            },
            Token::Reference(_, n) => {
                proof {
                    lemma_data_layout_err(tv, i + 1);
                }
                return Err(AsmError::Encoding(dup_bytes(n)));
            },
            Token::Instruction(n) => {
                proof {
                    lemma_data_layout_err(tv, i + 1);
                }
                return Err(AsmError::Encoding(dup_bytes(n)));
            },
            _ => {},
        }
        i += 1;
    }
    proof {
        assert(tv.take(tv.len() as int) =~= tv);
    }
    Ok(DataLayout { syms: syms, bytes: bytes })
}

/// One global section of `@code`, as split: its name and its tokens.
pub struct Section {
    pub name: Vec<u8>,
    pub toks: Vec<Token>,
}

impl View for Section {
    type V = SectionV;

    open spec fn view(&self) -> SectionV {
        SectionV { name: self.name@, toks: self.toks.deep_view() }
    }
}

impl DeepView for Section {
    type V = SectionV;

    open spec fn deep_view(&self) -> SectionV {
        self.view()
    }
}

/// Splits the `@code` bucket on its global labels, each section owning the
/// tokens up to the next global label.
pub fn split_sections(toks: &Vec<Token>, has_code: bool) -> (r: Result<Vec<Section>, AsmError>)
    ensures
        match r {
            Ok(secs) => spec_split_sections(toks.deep_view(), has_code) == Ok::<
                Seq<SectionV>,
                AsmErrV,
            >(secs.deep_view()),
            Err(e) => spec_split_sections(toks.deep_view(), has_code) == Err::<
                Seq<SectionV>,
                AsmErrV,
            >(e@),
        },
{
    let ghost tv = toks.deep_view();
    let mut open_sec = false;
    let mut name: Vec<u8> = Vec::new();
    let mut acc: Vec<Token> = Vec::new();
    let mut done: Vec<Section> = Vec::new();
    let mut i: usize = 0;
    proof {
        assert(tv.take(0) =~= Seq::<TokenV>::empty());
        assert(done.deep_view() =~= Seq::<SectionV>::empty());
    }
    while i < toks.len()
        invariant
            i <= tv.len(),
            tv == toks.deep_view(),
            tv.len() == toks@.len(),
            spec_split_fold(tv.take(i as int)) == Ok::<SplitStV, AsmErrV>(
                (SplitStV {
                    cur: if open_sec {
                        Some(SectionV { name: name@, toks: acc.deep_view() })
                    } else {
                        None
                    },
                    done: done.deep_view(),
                }),
            ),
        decreases tv.len() - i,
    {
        proof {
            assert(tv.take(i + 1).drop_last() =~= tv.take(i as int));
            assert(tv.take(i + 1).last() == tv[i as int]);
        }
        let t = &toks[i];
        match t {
            Token::Label(LabelType::Global, n) => {
                let ghost done0 = done.deep_view();
                if open_sec {
                    let finished = Section { name: name, toks: acc };
                    done.push(finished);
                    proof {
                        assert(done.deep_view() =~= done0.push(
                            SectionV { name: finished.name@, toks: finished.toks.deep_view() },
                        ));
                    }
                } else {
                    open_sec = true;
                }
                name = dup_bytes(n);
                acc = Vec::new();
                proof {
                    assert(acc.deep_view() =~= Seq::<TokenV>::empty());
                }
            },
            Token::NewLine => {},
            Token::Comment(_) => {},
            Token::Eof => {},
            Token::Directive(_) => {},
            _ => {
                if open_sec {
                    let ghost acc0 = acc.deep_view();
                    acc.push(dup_token(t));
                    proof {
                        assert(acc.deep_view() =~= acc0.push(tv[i as int]));
                    }
                } else {
                    proof {
                        lemma_split_fold_err(tv, i + 1);
                    }
                    return Err(AsmError::Encoding(token_text_vec(t)));
                }
            },
        }
        i += 1;
    }
    proof {
        assert(tv.take(tv.len() as int) =~= tv);
    }
    let mut secs = done;
    if open_sec {
        let ghost secs0 = secs.deep_view();
        let finished = Section { name: name, toks: acc };
        secs.push(finished);
        proof {
            assert(secs.deep_view() =~= secs0.push(
                SectionV { name: finished.name@, toks: finished.toks.deep_view() },
            ));
        }
    }
    if has_code && secs.len() == 0 {
        return Err(AsmError::Encoding(vstd::slice::slice_to_vec("@code".as_bytes())));
    }
    Ok(secs)
}

/// One sized section: its tokens, its local labels at their in-section
/// byte offsets, and its total byte size.
pub struct SizedSection {
    pub name: Vec<u8>,
    pub toks: Vec<Token>,
    pub locals: Vec<Sym>,
    pub size: u32,
}

impl View for SizedSection {
    type V = SizedSecV;

    open spec fn view(&self) -> SizedSecV {
        SizedSecV {
            name: self.name@,
            toks: self.toks.deep_view(),
            locals: self.locals.deep_view(),
            size: self.size,
        }
    }
}

impl DeepView for SizedSection {
    type V = SizedSecV;

    open spec fn deep_view(&self) -> SizedSecV {
        self.view()
    }
}

/// A copy of a token vector that provably carries the same tokens.
fn dup_tokens(v: &Vec<Token>) -> (r: Vec<Token>)
    ensures
        r.deep_view() == v.deep_view(),
{
    let mut r: Vec<Token> = Vec::new();
    let mut i: usize = 0;
    proof {
        assert(r.deep_view() =~= v.deep_view().take(0));
    }
    while i < v.len()
        invariant
            i <= v@.len(),
            v.deep_view().len() == v@.len(),
            r.deep_view() == v.deep_view().take(i as int),
        decreases v@.len() - i,
    {
        let ghost r0 = r.deep_view();
        let d = dup_token(&v[i]);
        r.push(d);
        proof {
            assert(r.deep_view() =~= r0.push(d@));
            assert(v.deep_view()[i as int] == d@);
            assert(r.deep_view() =~= v.deep_view().take(i + 1));
        }
        i += 1;
    }
    proof {
        assert(v.deep_view().take(v@.len() as int) =~= v.deep_view());
    }
    r
}

/// Computes each section's local label offsets and its byte size: one byte
/// per instruction, four per constant or reference.
pub fn size_sections(secs: &Vec<Section>) -> (r: Result<Vec<SizedSection>, AsmError>)
    ensures
        match r {
            Ok(sized) => spec_size_sections(secs.deep_view()) == Ok::<Seq<SizedSecV>, AsmErrV>(
                sized.deep_view(),
            ),
            Err(e) => spec_size_sections(secs.deep_view()) == Err::<Seq<SizedSecV>, AsmErrV>(e@),
        },
{
    let ghost sv = secs.deep_view();
    let mut out: Vec<SizedSection> = Vec::new();
    let mut i: usize = 0;
    proof {
        assert(sv.take(0) =~= Seq::<SectionV>::empty());
        assert(out.deep_view() =~= Seq::<SizedSecV>::empty());
    }
    while i < secs.len()
        invariant
            i <= sv.len(),
            sv == secs.deep_view(),
            sv.len() == secs@.len(),
            spec_size_sections(sv.take(i as int)) == Ok::<Seq<SizedSecV>, AsmErrV>(
                out.deep_view(),
            ),
        decreases sv.len() - i,
    {
        proof {
            assert(sv.take(i + 1).drop_last() =~= sv.take(i as int));
            assert(sv.take(i + 1).last() == sv[i as int]);
        }
        let sec = &secs[i];
        let ghost tv = sec.toks.deep_view();
        proof {
            assert(sv[i as int] == secs@[i as int].deep_view());
            assert(sv[i as int].toks == tv);
        }
        let mut count: u32 = 0;
        let mut locals: Vec<Sym> = Vec::new();
        let mut j: usize = 0;
        proof {
            assert(tv.take(0) =~= Seq::<TokenV>::empty());
            assert(locals.deep_view() =~= Seq::<SymV>::empty());
        }
        while j < sec.toks.len()
            invariant
                j <= tv.len(),
                tv == sec.toks.deep_view(),
                tv.len() == sec.toks@.len(),
                i < sv.len(),
                sv == secs.deep_view(),
                sv.len() == secs@.len(),
                sv[i as int].toks == tv,
                spec_size_sections(sv.take(i as int)) == Ok::<Seq<SizedSecV>, AsmErrV>(
                    out.deep_view(),
                ),
                spec_size_fold(tv.take(j as int)) == Ok::<SizeStV, AsmErrV>(
                    (SizeStV { count: count, locals: locals.deep_view() }),
                ),
            decreases tv.len() - j,
        {
            proof {
                assert(tv.take(j + 1).drop_last() =~= tv.take(j as int));
                assert(tv.take(j + 1).last() == tv[j as int]);
            }
            let t = &sec.toks[j];
            match t {
                Token::Label(LabelType::Local, n) => {
                    let ghost lv0 = locals.deep_view();
                    locals.push(Sym { name: dup_bytes(n), addr: count });
                    proof {
                        assert(locals.deep_view() =~= lv0.push(SymV { name: n@, addr: count }));
                    }
                },
                Token::Reference(_, _) => {
                    if count >= 0xFFFF_FFFC {
                        proof {
                            lemma_size_fold_err(tv, j + 1);
                            assert(spec_size_section(sv[i as int]) is Err);
                            assert(sv.take(i + 1).drop_last() =~= sv.take(i as int));
                            assert(sv.take(i + 1).last() == sv[i as int]);
                            lemma_size_sections_err(sv, i + 1);
                        }
                        return Err(oversize_err());
                    }
                    count = count + 4;
                },
                Token::Constant(_) => {
                    if count >= 0xFFFF_FFFC {
                        proof {
                            lemma_size_fold_err(tv, j + 1);
                            assert(spec_size_section(sv[i as int]) is Err);
                            assert(sv.take(i + 1).drop_last() =~= sv.take(i as int));
                            assert(sv.take(i + 1).last() == sv[i as int]);
                            lemma_size_sections_err(sv, i + 1);
                        }
                        return Err(oversize_err());
                    }
                    count = count + 4;
                },
                Token::Instruction(_) => {
                    if count >= 0xFFFF_FFFF {
                        proof {
                            lemma_size_fold_err(tv, j + 1);
                            assert(spec_size_section(sv[i as int]) is Err);
                            assert(sv.take(i + 1).drop_last() =~= sv.take(i as int));
                            assert(sv.take(i + 1).last() == sv[i as int]);
                            lemma_size_sections_err(sv, i + 1);
                        }
                        return Err(oversize_err());
                    }
                    count = count + 1;
                },
                _ => {},
            }
            j += 1;
        }
        proof {
            assert(tv.take(tv.len() as int) =~= tv);
        }
        let ghost out0 = out.deep_view();
        let sized_sec = SizedSection {
            name: dup_bytes(&sec.name),
            toks: dup_tokens(&sec.toks),
            locals: locals,
            size: count,
        };
        out.push(sized_sec);
        proof {
            assert(out.deep_view() =~= out0.push(
                SizedSecV {
                    name: sized_sec.name@,
                    toks: sized_sec.toks.deep_view(),
                    locals: sized_sec.locals.deep_view(),
                    size: sized_sec.size,
                },
            ));
        }
        i += 1;
    }
    proof {
        assert(sv.take(sv.len() as int) =~= sv);
    }
    Ok(out)
}

/// Assigns each section its absolute address: the first starts right after
/// the preamble and the data region, each next one where the previous
/// ended.
pub fn assign_addresses(data_len: usize, sized: &Vec<SizedSection>) -> (r: Result<
    Vec<u32>,
    AsmError,
>)
    ensures
        match r {
            Ok(addrs) => match spec_assign_addresses(data_len as int, sized.deep_view()) {
                Ok(st) => addrs@ == st.addrs,
                Err(_) => false,
            },
            Err(e) => spec_assign_addresses(data_len as int, sized.deep_view()) == Err::<
                AddrStV,
                AsmErrV,
            >(e@),
        },
{
    let ghost sv = sized.deep_view();
    if data_len > 0xFFFF_FFF9 {
        return Err(oversize_err());
    }
    let base: u32 = (6 + data_len) as u32;
    let mut next: u32 = base;
    let mut addrs: Vec<u32> = Vec::new();
    let mut i: usize = 0;
    proof {
        assert(sv.take(0) =~= Seq::<SizedSecV>::empty());
    }
    while i < sized.len()
        invariant
            i <= sv.len(),
            sv == sized.deep_view(),
            sv.len() == sized@.len(),
            data_len <= 0xFFFF_FFF9,
            base == 6 + data_len,
            spec_addr_fold(sv.take(i as int), base) == Ok::<AddrStV, AsmErrV>(
                (AddrStV { next: next, addrs: addrs@ }),
            ),
        decreases sv.len() - i,
    {
        proof {
            assert(sv.take(i + 1).drop_last() =~= sv.take(i as int));
            assert(sv.take(i + 1).last() == sv[i as int]);
        }
        let size = sized[i].size;
        if next as u64 + size as u64 > 0xFFFF_FFFFu64 {
            proof {
                lemma_addr_fold_err(sv, base, i + 1);
            }
            return Err(oversize_err());
        }
        addrs.push(next);
        next = next + size;
        i += 1;
    }
    proof {
        assert(sv.take(sv.len() as int) =~= sv);
    }
    Ok(addrs)
}

/// Looks a name up in a symbol table; the latest binding wins.
pub fn lookup_in(syms: &Vec<Sym>, name: &[u8]) -> (r: Option<u32>)
    ensures
        r == lookup_sym(syms.deep_view(), name@),
{
    let ghost sv = syms.deep_view();
    let mut i: usize = syms.len();
    proof {
        assert(sv.take(sv.len() as int) =~= sv);
    }
    while i > 0
        invariant
            i <= sv.len(),
            sv == syms.deep_view(),
            sv.len() == syms@.len(),
            lookup_sym(sv, name@) == lookup_sym(sv.take(i as int), name@),
        decreases i,
    {
        proof {
            assert(sv.take(i as int).drop_last() =~= sv.take(i - 1));
            assert(sv.take(i as int).last() == sv[i - 1]);
        }
        let entry = &syms[i - 1];
        if bytes_eq(entry.name.as_slice(), name) {
            return Some(entry.addr);
        }
        i -= 1;
    }
    proof {
        assert(sv.take(0) =~= Seq::<SymV>::empty());
    }
    None
}

// ---------------------------------------------------------------------------
// The whole pipeline
// ---------------------------------------------------------------------------

/// Assembles a token sequence into an image, or stops at the first fatal
/// diagnostic.
pub open spec fn spec_assemble_tokens(toks: Seq<TokenV>) -> Result<Seq<u8>, AsmErrV> {
    match spec_partition(toks) {
        Err(e) => Err(e),
        Ok(part) => match spec_data_layout(part.data) {
            Err(e) => Err(e),
            Ok(data) => match spec_split_sections(part.code, part.has_code) {
                Err(e) => Err(e),
                Ok(secs) => match spec_size_sections(secs) {
                    Err(e) => Err(e),
                    Ok(sized) => match spec_assign_addresses(data.bytes.len() as int, sized) {
                        Err(e) => Err(e),
                        Ok(addressing) => spec_emit(data.syms, data.bytes, sized, addressing.addrs),
                    },
                },
            },
        },
    }
}

/// Assembles source text: tokenization, then the assembly passes.
pub open spec fn spec_assemble(src: Seq<u8>) -> Result<Seq<u8>, AsmErrV> {
    match spec_lex(src) {
        Err(e) => Err(e),
        Ok(toks) => spec_assemble_tokens(toks),
    }
}

// ---------------------------------------------------------------------------
// Executable emission
// ---------------------------------------------------------------------------

/// A successful addressing pass assigns exactly one address per section.
proof fn lemma_addr_fold_len(sized: Seq<SizedSecV>, base: u32)
    ensures
        match spec_addr_fold(sized, base) {
            Ok(st) => st.addrs.len() == sized.len(),
            Err(_) => true,
        },
    decreases sized.len(),
{
    if sized.len() > 0 {
        lemma_addr_fold_len(sized.drop_last(), base);
    }
}

/// Copies symbol entries from `src` onto the end of `dst`.
fn extend_syms(dst: &mut Vec<Sym>, src: &Vec<Sym>)
    ensures
        final(dst).deep_view() == old(dst).deep_view() + src.deep_view(),
{
    let ghost d0 = old(dst).deep_view();
    let ghost sv = src.deep_view();
    let mut i: usize = 0;
    proof {
        assert(dst.deep_view() =~= d0 + sv.take(0));
    }
    while i < src.len()
        invariant
            i <= src@.len(),
            sv == src.deep_view(),
            sv.len() == src@.len(),
            dst.deep_view() == d0 + sv.take(i as int),
        decreases src@.len() - i,
    {
        let ghost before = dst.deep_view();
        let entry = &src[i];
        dst.push(Sym { name: dup_bytes(&entry.name), addr: entry.addr });
        i += 1;
        proof {
            assert(dst.deep_view() =~= before.push(sv[i - 1]));
            assert(dst.deep_view() =~= d0 + sv.take(i as int));
        }
    }
    proof {
        assert(sv.take(sv.len() as int) =~= sv);
    }
}

/// Emits one section's bytes, resolving references: global ones in the
/// unified map, local ones in this section's own local map (made absolute
/// by adding the section address).
fn emit_section_bytes(sec: &SizedSection, secaddr: u32, globals: &Vec<Sym>) -> (r: Result<
    Vec<u8>,
    AsmError,
>)
    ensures
        match r {
            Ok(b) => spec_emit_section(
                sec.toks.deep_view(),
                sec.locals.deep_view(),
                secaddr,
                globals.deep_view(),
            ) == Ok::<Seq<u8>, AsmErrV>(b@),
            Err(e) => spec_emit_section(
                sec.toks.deep_view(),
                sec.locals.deep_view(),
                secaddr,
                globals.deep_view(),
            ) == Err::<Seq<u8>, AsmErrV>(e@),
        },
{
    let ghost tv = sec.toks.deep_view();
    let ghost lv = sec.locals.deep_view();
    let ghost gv = globals.deep_view();
    let mut out: Vec<u8> = Vec::new();
    let mut j: usize = 0;
    proof {
        assert(tv.take(0) =~= Seq::<TokenV>::empty());
        assert(out@ =~= res_ok_bytes(spec_emit_section(tv.take(0), lv, secaddr, gv)));
    }
    while j < sec.toks.len()
        invariant
            j <= tv.len(),
            tv == sec.toks.deep_view(),
            tv.len() == sec.toks@.len(),
            lv == sec.locals.deep_view(),
            gv == globals.deep_view(),
            spec_emit_section(tv.take(j as int), lv, secaddr, gv) is Ok,
            out@ == res_ok_bytes(spec_emit_section(tv.take(j as int), lv, secaddr, gv)),
        decreases tv.len() - j,
    {
        proof {
            assert(tv.take(j + 1).drop_last() =~= tv.take(j as int));
            assert(tv.take(j + 1).last() == tv[j as int]);
        }
        let ghost emitted = res_ok_bytes(spec_emit_section(tv.take(j as int), lv, secaddr, gv));
        let t = &sec.toks[j];
        match t {
            Token::Instruction(n) => {
                match match_instruction(n.as_slice()) {
                    None => {
                        proof {
                            lemma_emit_section_err(tv, lv, secaddr, gv, j + 1);
                        }
                        return Err(AsmError::Encoding(dup_bytes(n)));
                    },
                    Some(info) => {
                        out.push(info.code);
                        proof {
                            assert(out@ =~= emitted + seq![info.code]);
                        }
                    },
                }
            },
            Token::Constant(v) => {
                let w: u32 = #[verifier::truncate] (*v as u32);
                push_be_word(&mut out, w);
            },
            Token::Reference(LabelType::Global, n) => {
                match lookup_in(globals, n.as_slice()) {
                    None => {
                        proof {
                            lemma_emit_section_err(tv, lv, secaddr, gv, j + 1);
                        }
                        return Err(AsmError::Symbol(dup_bytes(n)));
                    },
                    Some(a) => {
                        push_be_word(&mut out, a);
                    },
                }
            },
            Token::Reference(LabelType::Local, n) => {
                match lookup_in(&sec.locals, n.as_slice()) {
                    None => {
                        proof {
                            lemma_emit_section_err(tv, lv, secaddr, gv, j + 1);
                        }
                        return Err(AsmError::Symbol(dup_bytes(n)));
                    },
                    Some(off) => {
                        if secaddr as u64 + off as u64 > 0xFFFF_FFFFu64 {
                            proof {
                                lemma_emit_section_err(tv, lv, secaddr, gv, j + 1);
                            }
                            return Err(oversize_err());
                        }
                        push_be_word(&mut out, secaddr + off);
                    },
                }
            },
            _ => {
                proof {
                    assert(res_ok_bytes(spec_emit_section(tv.take(j + 1), lv, secaddr, gv)) =~=
                        emitted + Seq::<u8>::empty());
                }
            },
        }
        j += 1;
    }
    proof {
        assert(tv.take(tv.len() as int) =~= tv);
    }
    Ok(out)
}

/// Emits the final image: the preamble jumping to `._entry`, the data
/// region, then each section's bytes with every reference resolved.
#[verifier::rlimit(100)]
pub fn emit_image(data: &DataLayout, sized: &Vec<SizedSection>, addrs: &Vec<u32>) -> (r: Result<
    Vec<u8>,
    AsmError,
>)
    requires
        addrs@.len() == sized.deep_view().len(),
    ensures
        match r {
            Ok(img) => spec_emit(data.syms.deep_view(), data.bytes@, sized.deep_view(), addrs@)
                == Ok::<Seq<u8>, AsmErrV>(img@),
            Err(e) => spec_emit(data.syms.deep_view(), data.bytes@, sized.deep_view(), addrs@)
                == Err::<Seq<u8>, AsmErrV>(e@),
        },
{
    let ghost dsv = data.syms.deep_view();
    let ghost dbytes = data.bytes@;
    let ghost szv = sized.deep_view();
    let ghost av = addrs@;

    // Rebase the data symbols past the preamble.
    let mut data_abs: Vec<Sym> = Vec::new();
    let mut i: usize = 0;
    proof {
        assert(dsv.take(0) =~= Seq::<SymV>::empty());
        assert(data_abs.deep_view() =~= Seq::<SymV>::empty());
    }
    while i < data.syms.len()
        invariant
            i <= dsv.len(),
            dsv == data.syms.deep_view(),
            dsv.len() == data.syms@.len(),
            spec_data_syms_abs(dsv.take(i as int)) == Ok::<Seq<SymV>, AsmErrV>(
                data_abs.deep_view(),
            ),
        decreases dsv.len() - i,
    {
        proof {
            assert(dsv.take(i + 1).drop_last() =~= dsv.take(i as int));
            assert(dsv.take(i + 1).last() == dsv[i as int]);
        }
        let entry = &data.syms[i];
        if entry.addr > 0xFFFF_FFF9 {
            proof {
                lemma_data_syms_abs_err(dsv, i + 1);
            }
            return Err(oversize_err());
        }
        let ghost before = data_abs.deep_view();
        data_abs.push(Sym { name: dup_bytes(&entry.name), addr: entry.addr + 6 });
        i += 1;
        proof {
            assert(data_abs.deep_view() =~= before.push(
                SymV { name: dsv[i - 1].name, addr: (dsv[i - 1].addr + 6) as u32 },
            ));
        }
    }
    proof {
        assert(dsv.take(dsv.len() as int) =~= dsv);
    }

    // The code symbol table: one entry per section at its address.
    let mut code_syms: Vec<Sym> = Vec::new();
    let mut i: usize = 0;
    proof {
        assert(code_syms.deep_view() =~= spec_code_syms(szv, av).take(0));
    }
    while i < sized.len()
        invariant
            i <= szv.len(),
            szv == sized.deep_view(),
            szv.len() == sized@.len(),
            av == addrs@,
            av.len() == szv.len(),
            code_syms.deep_view() == spec_code_syms(szv, av).take(i as int),
        decreases szv.len() - i,
    {
        let ghost before = code_syms.deep_view();
        code_syms.push(Sym { name: dup_bytes(&sized[i].name), addr: addrs[i] });
        i += 1;
        proof {
            assert(code_syms.deep_view() =~= before.push(
                SymV { name: szv[i - 1].name, addr: av[i - 1] },
            ));
            assert(code_syms.deep_view() =~= spec_code_syms(szv, av).take(i as int));
        }
    }
    proof {
        assert(spec_code_syms(szv, av).take(szv.len() as int) =~= spec_code_syms(szv, av));
    }

    // The unified global map: code symbols, then the rebased data symbols.
    let mut globals: Vec<Sym> = Vec::new();
    extend_syms(&mut globals, &code_syms);
    extend_syms(&mut globals, &data_abs);
    let ghost gv = globals.deep_view();
    proof {
        assert(gv =~= spec_code_syms(szv, av) + data_abs.deep_view());
        assert(Seq::<SymV>::empty() + code_syms.deep_view() =~= code_syms.deep_view());
    }

    // The entry point: the code section named `._entry`.
    let entry = match lookup_in(&code_syms, "._entry".as_bytes()) {
        Some(a) => a,
        None => {
            return Err(AsmError::Symbol(vstd::slice::slice_to_vec("._entry".as_bytes())));
        },
    };

    // Preamble and data region.
    let mut out: Vec<u8> = Vec::new();
    out.push(0x88);
    push_be_word(&mut out, entry);
    out.push(0x00);
    proof {
        assert(out@ =~= spec_preamble(entry));
    }
    push_bytes(&mut out, &data.bytes);

    // Section bodies, in emission order.
    let mut i: usize = 0;
    proof {
        assert(szv.take(0) =~= Seq::<SizedSecV>::empty());
        assert(av.take(0) =~= Seq::<u32>::empty());
        assert(out@ =~= spec_preamble(entry) + dbytes + res_ok_bytes(
            spec_emit_sections(szv.take(0), av.take(0), gv),
        ));
    }
    while i < sized.len()
        invariant
            i <= szv.len(),
            szv == sized.deep_view(),
            szv.len() == sized@.len(),
            av == addrs@,
            av.len() == szv.len(),
            gv == globals.deep_view(),
            gv == spec_code_syms(szv, av) + data_abs.deep_view(),
            spec_data_syms_abs(dsv) == Ok::<Seq<SymV>, AsmErrV>(data_abs.deep_view()),
            dsv == data.syms.deep_view(),
            dbytes == data.bytes@,
            lookup_sym(spec_code_syms(szv, av), "._entry".spec_bytes()) == Some(entry),
            spec_emit_sections(szv.take(i as int), av.take(i as int), gv) is Ok,
            out@ == spec_preamble(entry) + dbytes + res_ok_bytes(
                spec_emit_sections(szv.take(i as int), av.take(i as int), gv),
            ),
        decreases szv.len() - i,
    {
        proof {
            assert(szv.take(i + 1).drop_last() =~= szv.take(i as int));
            assert(szv.take(i + 1).last() == szv[i as int]);
            assert(av.take(i + 1).drop_last() =~= av.take(i as int));
            assert(av.take(i + 1).last() == av[i as int]);
        }
        let sec = &sized[i];
        let secaddr = addrs[i];
        let ghost tv = sec.toks.deep_view();
        let ghost lv = sec.locals.deep_view();
        proof {
            assert(szv[i as int] == sized@[i as int].deep_view());
            assert(szv[i as int].toks == tv);
            assert(szv[i as int].locals == lv);
        }
        let ghost body0 = res_ok_bytes(spec_emit_sections(szv.take(i as int), av.take(i as int), gv));
        match emit_section_bytes(sec, secaddr, &globals) {
            Ok(b) => {
                push_bytes(&mut out, &b);
                proof {
                    assert(res_ok_bytes(spec_emit_sections(szv.take(i + 1), av.take(i + 1), gv))
                        =~= body0 + b@);
                    assert(out@ =~= spec_preamble(entry) + dbytes + res_ok_bytes(
                        spec_emit_sections(szv.take(i + 1), av.take(i + 1), gv),
                    ));
                }
            },
            Err(e) => {
                proof {
                    assert(spec_emit_sections(szv.take(i + 1), av.take(i + 1), gv) is Err);
                    lemma_emit_sections_err(szv, av, gv, i + 1);
                }
                return Err(e);
            },
        }
        i += 1;
    }
    proof {
        assert(szv.take(szv.len() as int) =~= szv);
        assert(av.take(av.len() as int) =~= av);
    }
    Ok(out)
}

// ---------------------------------------------------------------------------
// The assembler
// ---------------------------------------------------------------------------

/// Whether an executable assembly result matches the specification's.
pub open spec fn assemble_matches(r: Result<Vec<u8>, AsmError>, src: Seq<u8>) -> bool {
    match r {
        Ok(img) => spec_assemble(src) == Ok::<Seq<u8>, AsmErrV>(img@),
        Err(e) => spec_assemble(src) == Err::<Seq<u8>, AsmErrV>(e@),
    }
}

/// The two-pass assembler: holds the source bytes and turns them into a
/// bytecode image.
pub struct Assembler {
    pub source: Vec<u8>,
}

impl Assembler {
    /// An assembler over the given source text.
    pub fn new(source: String) -> (a: Assembler)
        ensures
            a.source@ == vstd::utf8::encode_utf8(source@),
    {
        Assembler { source: source.as_str().as_bytes_vec() }
    }

    /// Assembles the source: tokenization, directive partitioning, data
    /// layout, section splitting, sizing, addressing, and emission. Either
    /// the finished image comes back, or the first fatal diagnostic; the
    /// image is a function of the source text alone.
    pub fn assemble(&mut self) -> (r: Result<Vec<u8>, AsmError>)
        ensures
            final(self).source@ == old(self).source@,
            assemble_matches(r, old(self).source@),
    {
        let ghost src = self.source@;
        let mut lexer = Lexer { source: self.source.as_slice(), base_index: 0 };
        let toks = match lexer.lex() {
            Ok(t) => t,
            Err(e) => {
                return Err(e);
            },
        };
        let buckets = match partition_tokens(&toks) {
            Ok(b) => b,
            Err(e) => {
                return Err(e);
            },
        };
        let data = match layout_data(&buckets.data) {
            Ok(d) => d,
            Err(e) => {
                return Err(e);
            },
        };
        let secs = match split_sections(&buckets.code, buckets.has_code) {
            Ok(s) => s,
            Err(e) => {
                return Err(e);
            },
        };
        let sized = match size_sections(&secs) {
            Ok(s) => s,
            Err(e) => {
                return Err(e);
            },
        };
        let addrs = match assign_addresses(data.bytes.len(), &sized) {
            Ok(a) => a,
            Err(e) => {
                return Err(e);
            },
        };
        proof {
            lemma_addr_fold_len(sized.deep_view(), (6 + data.bytes@.len()) as u32);
        }
        emit_image(&data, &sized, &addrs)
    }
}

} // verus!
