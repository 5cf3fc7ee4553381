//! Laws of the assembler, proved once and for all over the assembly
//! specification: the image length, the preamble, the monotone layout of
//! section addresses, the visibility of labels, and determinism.

use vstd::prelude::*;
use vstd::string::StringSliceAdditionalSpecFns;

use crate::assembler::{
    assemble_matches, lookup_sym, spec_addr_fold, spec_assemble_tokens, spec_assign_addresses,
    spec_code_syms, spec_data_layout, spec_data_syms_abs, spec_emit, spec_emit_section,
    spec_emit_sections, spec_emit_token, spec_partition, spec_preamble, spec_size_fold,
    spec_size_section,
    spec_size_sections, spec_split_sections, AddrStV, PartStV, SectionV, SizedSecV, SymV,
};
use crate::bytes::{be_word_bytes, be_word_of_seq, lemma_be_round_trip};
use crate::errors::{AsmErrV, AsmError};
use crate::lexer::{LabelType, TokenV};

verus! {

// ---------------------------------------------------------------------------
// Token counts and section weights
// ---------------------------------------------------------------------------

/// How many constants a token sequence holds.
pub open spec fn count_constants(toks: Seq<TokenV>) -> int
    decreases toks.len(),
{
    if toks.len() == 0 {
        0
    } else {
        count_constants(toks.drop_last()) + if toks.last() is Constant {
            1int
        } else {
            0int
        }
    }
}

/// How many references a token sequence holds.
pub open spec fn count_references(toks: Seq<TokenV>) -> int
    decreases toks.len(),
{
    if toks.len() == 0 {
        0
    } else {
        count_references(toks.drop_last()) + if toks.last() is Reference {
            1int
        } else {
            0int
        }
    }
}

/// How many instructions a token sequence holds.
pub open spec fn count_instructions(toks: Seq<TokenV>) -> int
    decreases toks.len(),
{
    if toks.len() == 0 {
        0
    } else {
        count_instructions(toks.drop_last()) + if toks.last() is Instruction {
            1int
        } else {
            0int
        }
    }
}

/// The bytes a section's tokens stand for: one per instruction, four per
/// constant or reference.
pub open spec fn section_weight(toks: Seq<TokenV>) -> int {
    count_instructions(toks) + 4 * (count_constants(toks) + count_references(toks))
}

/// The summed weight of a section list.
pub open spec fn sections_weight(secs: Seq<SectionV>) -> int
    decreases secs.len(),
{
    if secs.len() == 0 {
        0
    } else {
        sections_weight(secs.drop_last()) + section_weight(secs.last().toks)
    }
}

/// The summed weight of a sized section list.
pub open spec fn sized_weight(sized: Seq<SizedSecV>) -> int
    decreases sized.len(),
{
    if sized.len() == 0 {
        0
    } else {
        sized_weight(sized.drop_last()) + section_weight(sized.last().toks)
    }
}

// ---------------------------------------------------------------------------
// Length law
// ---------------------------------------------------------------------------

/// The data region takes exactly four bytes per data constant.
proof fn lemma_data_bytes_len(toks: Seq<TokenV>)
    ensures
        match spec_data_layout(toks) {
            Ok(st) => st.bytes.len() == 4 * count_constants(toks),
            Err(_) => true,
        },
    decreases toks.len(),
{
    if toks.len() > 0 {
        lemma_data_bytes_len(toks.drop_last());
    }
}

/// A section's emitted bytes take exactly its weight.
proof fn lemma_emit_section_len(toks: Seq<TokenV>, locals: Seq<SymV>, secaddr: u32, globals: Seq<SymV>)
    ensures
        match spec_emit_section(toks, locals, secaddr, globals) {
            Ok(b) => b.len() == section_weight(toks),
            Err(_) => true,
        },
    decreases toks.len(),
{
    if toks.len() > 0 {
        lemma_emit_section_len(toks.drop_last(), locals, secaddr, globals);
    }
}

/// The emitted section bodies take exactly the summed weight.
proof fn lemma_emit_sections_len(sized: Seq<SizedSecV>, addrs: Seq<u32>, globals: Seq<SymV>)
    requires
        sized.len() == addrs.len(),
    ensures
        match spec_emit_sections(sized, addrs, globals) {
            Ok(b) => b.len() == sized_weight(sized),
            Err(_) => true,
        },
    decreases sized.len(),
{
    if sized.len() > 0 {
        lemma_emit_sections_len(sized.drop_last(), addrs.drop_last(), globals);
        lemma_emit_section_len(sized.last().toks, sized.last().locals, addrs.last(), globals);
    }
}

/// The running count of the sizing pass is the weight of the tokens
/// walked.
proof fn lemma_size_fold_weight(toks: Seq<TokenV>)
    ensures
        match spec_size_fold(toks) {
            Ok(st) => st.count == section_weight(toks),
            Err(_) => true,
        },
    decreases toks.len(),
{
    if toks.len() > 0 {
        lemma_size_fold_weight(toks.drop_last());
    }
}

/// A sized section's byte size is its token weight: one byte per
/// instruction, four per constant or reference — so the size the
/// addressing pass packs sections by is exactly the length of the bytes
/// emission produces for them.
pub proof fn lemma_section_size_is_weight(sec: SectionV, sized: SizedSecV)
    requires
        spec_size_section(sec) == Ok::<SizedSecV, AsmErrV>(sized),
    ensures
        sized.size == section_weight(sec.toks),
{
    lemma_size_fold_weight(sec.toks);
}

/// Sizing keeps each section's tokens, so the summed weights agree.
proof fn lemma_weight_transfer(secs: Seq<SectionV>, sized: Seq<SizedSecV>)
    requires
        spec_size_sections(secs) == Ok::<Seq<SizedSecV>, AsmErrV>(sized),
    ensures
        sized.len() == secs.len(),
        sized_weight(sized) == sections_weight(secs),
    decreases secs.len(),
{
    if secs.len() == 0 {
    } else {
        match spec_size_sections(secs.drop_last()) {
            Err(_) => {
                assert(false);
            },
            Ok(done) => {
                match spec_size_section(secs.last()) {
                    Err(_) => {
                        assert(false);
                    },
                    Ok(s) => {
                        assert(sized == done.push(s));
                        assert(sized.drop_last() =~= done);
                        assert(sized.last() == s);
                        assert(s.toks == secs.last().toks);
                        lemma_weight_transfer(secs.drop_last(), done);
                    },
                }
            },
        }
    }
}

/// A successful addressing pass assigns exactly one address per section.
proof fn lemma_addrs_len(sized: Seq<SizedSecV>, base: u32)
    ensures
        match spec_addr_fold(sized, base) {
            Ok(st) => st.addrs.len() == sized.len(),
            Err(_) => true,
        },
    decreases sized.len(),
{
    if sized.len() > 0 {
        lemma_addrs_len(sized.drop_last(), base);
    }
}

/// Length law. A successfully assembled image is exactly the 6-byte
/// preamble, four bytes for each `@data` constant, and, section by
/// section, one byte per instruction and four bytes per constant or
/// reference.
pub proof fn lemma_length_law(toks: Seq<TokenV>, part: PartStV, secs: Seq<SectionV>, img: Seq<u8>)
    requires
        spec_partition(toks) == Ok::<PartStV, AsmErrV>(part),
        spec_split_sections(part.code, part.has_code) == Ok::<Seq<SectionV>, AsmErrV>(secs),
        spec_assemble_tokens(toks) == Ok::<Seq<u8>, AsmErrV>(img),
    ensures
        img.len() == 6 + 4 * count_constants(part.data) + sections_weight(secs),
{
    match spec_data_layout(part.data) {
        Err(_) => {
            assert(false);
        },
        Ok(data) => {
            lemma_data_bytes_len(part.data);
            match spec_size_sections(secs) {
                Err(_) => {
                    assert(false);
                },
                Ok(sized) => {
                    lemma_weight_transfer(secs, sized);
                    match spec_assign_addresses(data.bytes.len() as int, sized) {
                        Err(_) => {
                            assert(false);
                        },
                        Ok(addressing) => {
                            lemma_addrs_len(sized, (6 + data.bytes.len()) as u32);
                            match spec_data_syms_abs(data.syms) {
                                Err(_) => {
                                    assert(false);
                                },
                                Ok(data_abs) => {
                                    let code_syms = spec_code_syms(sized, addressing.addrs);
                                    let globals = code_syms + data_abs;
                                    lemma_emit_sections_len(sized, addressing.addrs, globals);
                                    match lookup_sym(code_syms, "._entry".spec_bytes()) {
                                        None => {
                                            assert(false);
                                        },
                                        Some(entry) => {
                                            match spec_emit_sections(
                                                sized,
                                                addressing.addrs,
                                                globals,
                                            ) {
                                                Err(_) => {
                                                    assert(false);
                                                },
                                                Ok(body) => {
                                                    assert(img == spec_preamble(entry)
                                                        + data.bytes + body);
                                                    assert(spec_preamble(entry).len() == 6);
                                                },
                                            }
                                        },
                                    }
                                },
                            }
                        },
                    }
                },
            }
        },
    }
}

// ---------------------------------------------------------------------------
// Preamble law
// ---------------------------------------------------------------------------

/// Preamble law. A successfully emitted image starts with the `jmp`
/// opcode byte `0x88`; its bytes 1 through 4 decode, big-endian, to the
/// absolute address of the code section named `._entry`; byte 5 is the
/// zero padding byte.
pub proof fn lemma_preamble_law(
    dsyms: Seq<SymV>,
    dbytes: Seq<u8>,
    sized: Seq<SizedSecV>,
    addrs: Seq<u32>,
    img: Seq<u8>,
)
    requires
        spec_emit(dsyms, dbytes, sized, addrs) == Ok::<Seq<u8>, AsmErrV>(img),
    ensures
        img.len() >= 6,
        img[0] == 0x88,
        img[5] == 0x00,
        lookup_sym(spec_code_syms(sized, addrs), "._entry".spec_bytes()) == Some(
            be_word_of_seq(img.subrange(1, 5)),
        ),
{
    match spec_data_syms_abs(dsyms) {
        Err(_) => {
            assert(false);
        },
        Ok(data_abs) => {
            let code_syms = spec_code_syms(sized, addrs);
            let globals = code_syms + data_abs;
            match lookup_sym(code_syms, "._entry".spec_bytes()) {
                None => {
                    assert(false);
                },
                Some(entry) => {
                    match spec_emit_sections(sized, addrs, globals) {
                        Err(_) => {
                            assert(false);
                        },
                        Ok(body) => {
                            assert(img == spec_preamble(entry) + dbytes + body);
                            assert(img.subrange(1, 5) =~= be_word_bytes(entry));
                            lemma_be_round_trip(entry);
                        },
                    }
                },
            }
        },
    }
}

/// Preamble law, at the level of a whole assembly: every successfully
/// assembled image opens with the `jmp` opcode byte and carries the zero
/// padding byte at offset 5.
pub proof fn lemma_preamble_shape(toks: Seq<TokenV>, img: Seq<u8>)
    requires
        spec_assemble_tokens(toks) == Ok::<Seq<u8>, AsmErrV>(img),
    ensures
        img.len() >= 6,
        img[0] == 0x88,
        img[5] == 0x00,
{
    match spec_partition(toks) {
        Err(_) => {
            assert(false);
        },
        Ok(part) => match spec_data_layout(part.data) {
            Err(_) => {
                assert(false);
            },
            Ok(data) => match spec_split_sections(part.code, part.has_code) {
                Err(_) => {
                    assert(false);
                },
                Ok(secs) => match spec_size_sections(secs) {
                    Err(_) => {
                        assert(false);
                    },
                    Ok(sized) => match spec_assign_addresses(data.bytes.len() as int, sized) {
                        Err(_) => {
                            assert(false);
                        },
                        Ok(addressing) => {
                            lemma_preamble_law(
                                data.syms,
                                data.bytes,
                                sized,
                                addressing.addrs,
                                img,
                            );
                        },
                    },
                },
            },
        },
    }
}

// ---------------------------------------------------------------------------
// Monotone addressing
// ---------------------------------------------------------------------------

/// The inner shape of a successful addressing pass: one address per
/// section, consecutive sections packed back to back, addresses never
/// decreasing, and the next free address past them all.
proof fn lemma_addr_fold_props(sized: Seq<SizedSecV>, base: u32)
    ensures
        match spec_addr_fold(sized, base) {
            Ok(st) => {
                &&& st.addrs.len() == sized.len()
                &&& st.next >= base
                &&& (sized.len() == 0 ==> st.next == base)
                &&& (sized.len() > 0 ==> st.next == st.addrs.last() + sized.last().size)
                &&& (forall|i: int|
                    0 <= i < sized.len() ==> #[trigger] st.addrs[i] + sized[i].size <= st.next)
                &&& (forall|i: int|
                    0 <= i < sized.len() - 1 ==> #[trigger] st.addrs[i + 1] == st.addrs[i]
                        + sized[i].size)
                &&& (forall|i: int, j: int|
                    0 <= i <= j < sized.len() ==> #[trigger] st.addrs[i] <= #[trigger] st.addrs[j])
            },
            Err(_) => true,
        },
    decreases sized.len(),
{
    if sized.len() > 0 {
        lemma_addr_fold_props(sized.drop_last(), base);
    }
}

/// Monotone addressing. When addressing succeeds, a section that appears
/// before another starts no later; consecutive sections are packed back to
/// back, `addr(G) + size(G) == addr(H)`; and where every section in
/// between (among them the earlier one) is non-empty, the order is strict,
/// `addr(G) < addr(H)`. An empty section — a global label immediately
/// followed by another — shares its successor's address, which is why the
/// strict part asks for non-empty sections.
pub proof fn lemma_monotone_addressing(data_len: int, sized: Seq<SizedSecV>, st: AddrStV)
    requires
        spec_assign_addresses(data_len, sized) == Ok::<AddrStV, AsmErrV>(st),
    ensures
        st.addrs.len() == sized.len(),
        forall|i: int|
            0 <= i < sized.len() - 1 ==> #[trigger] st.addrs[i + 1] == st.addrs[i]
                + sized[i].size,
        forall|i: int, j: int|
            0 <= i <= j < sized.len() ==> #[trigger] st.addrs[i] <= #[trigger] st.addrs[j],
        forall|i: int, j: int|
            0 <= i < j < sized.len() && (forall|k: int| i <= k < j ==> #[trigger] sized[k].size
                > 0) ==> st.addrs[i] < st.addrs[j],
{
    lemma_addr_fold_props(sized, (6 + data_len) as u32);
    assert forall|i: int, j: int|
        0 <= i < j < sized.len() && (forall|k: int| i <= k < j ==> #[trigger] sized[k].size
            > 0) implies st.addrs[i] < st.addrs[j] by {
        assert(st.addrs[i + 1] == st.addrs[i] + sized[i].size);
        assert(sized[i].size > 0);
        assert(st.addrs[i + 1] <= st.addrs[j]);
    }
}

// ---------------------------------------------------------------------------
// Label visibility
// ---------------------------------------------------------------------------

/// Label visibility. What a local reference emits inside a section is
/// settled by that section's own local map and address alone — the global
/// map, and with it every other section's labels, plays no part. What a
/// global reference emits is settled by the unified global map alone —
/// the enclosing section's local map and address play no part.
pub proof fn lemma_label_visibility(
    n: Seq<u8>,
    locals: Seq<SymV>,
    secaddr: u32,
    g1: Seq<SymV>,
    g2: Seq<SymV>,
    l1: Seq<SymV>,
    l2: Seq<SymV>,
    a1: u32,
    a2: u32,
    g: Seq<SymV>,
)
    ensures
        spec_emit_token(TokenV::Reference(LabelType::Local, n), locals, secaddr, g1)
            == spec_emit_token(TokenV::Reference(LabelType::Local, n), locals, secaddr, g2),
        spec_emit_token(TokenV::Reference(LabelType::Global, n), l1, a1, g) == spec_emit_token(
            TokenV::Reference(LabelType::Global, n),
            l2,
            a2,
            g,
        ),
{
}

// ---------------------------------------------------------------------------
// Idempotence
// ---------------------------------------------------------------------------

/// Idempotence. Assembly is a function of the source text alone: two runs
/// over the same source return byte-identical images, or the identical
/// diagnostic.
pub proof fn lemma_assemble_idempotent(
    src: Seq<u8>,
    r1: Result<Vec<u8>, AsmError>,
    r2: Result<Vec<u8>, AsmError>,
)
    requires
        assemble_matches(r1, src),
        assemble_matches(r2, src),
    ensures
        match r1 {
            Ok(img1) => match r2 {
                Ok(img2) => img1@ == img2@,
                Err(_) => false,
            },
            Err(e1) => match r2 {
                Ok(_) => false,
                Err(e2) => e1@ == e2@,
            },
        },
{
}

} // verus!
