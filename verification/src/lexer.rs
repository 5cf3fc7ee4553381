//! The lexer: turns the source text into a finite vector of tokens,
//! terminated by an end-of-input marker.
//!
//! Tokenization proceeds by whitespace-delimited spans: space and newline
//! separate spans, and `;` begins a comment span that swallows the rest of
//! the line. Each span is classified against a fixed set of shape
//! predicates, tried in order. A span that matches none is a fatal lex
//! error naming the offending text.

use vstd::prelude::*;
use vstd::slice::{slice_subrange, slice_to_vec};
use vstd::string::StringSliceAdditionalSpecFns;

use crate::bytes::{ascii_lower, ascii_lower_vec, bytes_eq_str};
use crate::errors::{AsmErrV, AsmError};

verus! {

/// Whether a label or reference names a file-wide global (written with a
/// leading `.`) or a scope-local name (written with a leading `'`).
#[derive(Debug, Clone, Copy, PartialEq, Eq, Structural)]
pub enum LabelType {
    Global,
    Local,
}

/// A section marker: `@code` holds the executable program, `@data` holds
/// initial data words, `@space` is reserved.
#[derive(Debug, Clone, Copy, PartialEq, Eq, Structural, Hash)]
pub enum Directive {
    Code,
    Data,
    Space,
}

impl Directive {
    /// The directive a span of source text stands for, folding ASCII
    /// case: `@code`, `@data` or `@space`, anything else being a fatal
    /// directive error.
    pub fn from_string(string: &str) -> (r: Result<Directive, AsmError>)
        ensures
            ({
                let n = ascii_lower(string.spec_bytes());
                match r {
                    Ok(Directive::Code) => n == "@code".spec_bytes(),
                    Ok(Directive::Data) => n == "@data".spec_bytes(),
                    Ok(Directive::Space) => n == "@space".spec_bytes(),
                    Err(_) => n != "@code".spec_bytes() && n != "@data".spec_bytes() && n
                        != "@space".spec_bytes(),
                }
            }),
    {
        let low = ascii_lower_vec(string.as_bytes());
        if bytes_eq_str(low.as_slice(), "@code") {
            Ok(Directive::Code)
        } else if bytes_eq_str(low.as_slice(), "@data") {
            Ok(Directive::Data)
        } else if bytes_eq_str(low.as_slice(), "@space") {
            Ok(Directive::Space)
        } else {
            Err(AsmError::Directive(slice_to_vec(string.as_bytes())))
        }
    }
}

/// One token of the assembly source. Label and reference names keep their
/// sigil (`.` or `'`); label names drop the trailing `:`.
#[derive(Debug, Clone)]
pub enum Token {
    Label(LabelType, Vec<u8>),
    Reference(LabelType, Vec<u8>),
    Directive(Directive),
    Instruction(Vec<u8>),
    Constant(i64),
    NewLine,
    Comment(Vec<u8>),
    Eof,
}

/// The mathematical image of a `Token`.
pub enum TokenV {
    Label(LabelType, Seq<u8>),
    Reference(LabelType, Seq<u8>),
    Directive(Directive),
    Instruction(Seq<u8>),
    Constant(i64),
    NewLine,
    Comment(Seq<u8>),
    Eof,
}

impl View for Token {
    type V = TokenV;

    open spec fn view(&self) -> TokenV {
        match self {
            Token::Label(t, n) => TokenV::Label(*t, n@),
            Token::Reference(t, n) => TokenV::Reference(*t, n@),
            Token::Directive(d) => TokenV::Directive(*d),
            Token::Instruction(n) => TokenV::Instruction(n@),
            Token::Constant(v) => TokenV::Constant(*v),
            Token::NewLine => TokenV::NewLine,
            Token::Comment(c) => TokenV::Comment(c@),
            Token::Eof => TokenV::Eof,
        }
    }
}

impl DeepView for Token {
    type V = TokenV;

    open spec fn deep_view(&self) -> TokenV {
        self.view()
    }
}

// ---------------------------------------------------------------------------
// Byte classes
// ---------------------------------------------------------------------------

/// An ASCII letter.
pub open spec fn is_letter(b: u8) -> bool {
    (65 <= b <= 90) || (97 <= b <= 122)
}

/// An ASCII decimal digit.
pub open spec fn is_digit(b: u8) -> bool {
    48 <= b <= 57
}

/// A word byte: letter, digit or underscore (the `\w` class of the shapes).
pub open spec fn is_word_byte(b: u8) -> bool {
    is_letter(b) || is_digit(b) || b == 95
}

/// ASCII whitespace, as comment text trimming drops it.
pub open spec fn is_ws(b: u8) -> bool {
    b == 32 || b == 9 || b == 10 || b == 13 || b == 11 || b == 12
}

// ---------------------------------------------------------------------------
// Span shapes, in the order they are tried
// ---------------------------------------------------------------------------

/// `@` followed by one or more letters.
pub open spec fn is_directive_span(s: Seq<u8>) -> bool {
    s.len() >= 2 && s[0] == 64 && (forall|i: int| 1 <= i < s.len() ==> is_letter(#[trigger] s[i]))
}

/// `.name:` — a global-label definition.
pub open spec fn is_global_label_span(s: Seq<u8>) -> bool {
    s.len() >= 3 && s[0] == 46 && s[s.len() - 1] == 58 && (forall|i: int|
        1 <= i < s.len() - 1 ==> is_word_byte(#[trigger] s[i]))
}

/// `'name:` — a local-label definition.
pub open spec fn is_local_label_span(s: Seq<u8>) -> bool {
    s.len() >= 3 && s[0] == 39 && s[s.len() - 1] == 58 && (forall|i: int|
        1 <= i < s.len() - 1 ==> is_word_byte(#[trigger] s[i]))
}

/// `.name` — a global reference.
pub open spec fn is_global_ref_span(s: Seq<u8>) -> bool {
    s.len() >= 2 && s[0] == 46 && (forall|i: int| 1 <= i < s.len() ==> is_word_byte(
        #[trigger] s[i],
    ))
}

/// `'name` — a local reference.
pub open spec fn is_local_ref_span(s: Seq<u8>) -> bool {
    s.len() >= 2 && s[0] == 39 && (forall|i: int| 1 <= i < s.len() ==> is_word_byte(
        #[trigger] s[i],
    ))
}

/// Letters and underscores — an instruction mnemonic (underscores join
/// the halves of mnemonics such as the global loads and the compares).
pub open spec fn is_instruction_span(s: Seq<u8>) -> bool {
    s.len() >= 1 && (forall|i: int| 0 <= i < s.len() ==> is_mnemonic_byte(#[trigger] s[i]))
}

/// A mnemonic byte: a letter or an underscore.
pub open spec fn is_mnemonic_byte(b: u8) -> bool {
    is_letter(b) || b == 95
}

/// Optional sign, digits, optional decimal point, digits: an integer
/// constant. A decimal point is accepted but the fractional part is dropped
/// when the value is taken.
pub open spec fn is_constant_span(s: Seq<u8>) -> bool {
    let t = if s.len() >= 1 && s[0] == 45 {
        s.skip(1)
    } else {
        s
    };
    is_unsigned_constant_span(t)
}

/// Digits, or digits around exactly one decimal point with at least one
/// digit after it.
pub open spec fn is_unsigned_constant_span(t: Seq<u8>) -> bool {
    ||| (t.len() >= 1 && (forall|i: int| 0 <= i < t.len() ==> is_digit(#[trigger] t[i])))
    ||| (exists|k: int|
        0 <= k < t.len() - 1 && t[k] == 46 && (forall|i: int|
            0 <= i < t.len() && i != k ==> is_digit(#[trigger] t[i])))
}

/// A lone newline.
pub open spec fn is_newline_span(s: Seq<u8>) -> bool {
    s =~= seq![10u8]
}

/// `;` followed by at least one byte that is not a newline.
pub open spec fn is_comment_span(s: Seq<u8>) -> bool {
    s.len() >= 2 && s[0] == 59 && s[1] != 10
}

// ---------------------------------------------------------------------------
// Values carried by tokens
// ---------------------------------------------------------------------------

/// The value of a digit string read in decimal.
pub open spec fn digits_value(t: Seq<u8>) -> int
    decreases t.len(),
{
    if t.len() == 0 {
        0
    } else {
        digits_value(t.drop_last()) * 10 + (t.last() - 48)
    }
}

/// The longest digit prefix of a byte string.
pub open spec fn digit_prefix_end(t: Seq<u8>, j: int) -> int
    decreases t.len() - j,
{
    if j < 0 || j >= t.len() || !is_digit(t[j]) {
        j
    } else {
        digit_prefix_end(t, j + 1)
    }
}

/// The integer value of a constant span: the sign, applied to the digits
/// before the optional decimal point. The fractional part is dropped.
pub open spec fn spec_constant_value(s: Seq<u8>) -> int
    recommends
        is_constant_span(s),
{
    if s.len() >= 1 && s[0] == 45 {
        -digits_value(s.skip(1).take(digit_prefix_end(s.skip(1), 0)))
    } else {
        digits_value(s.take(digit_prefix_end(s, 0)))
    }
}

/// Comment text: the span after the leading `;` run and the whitespace that
/// follows it.
pub open spec fn spec_comment_text(s: Seq<u8>) -> Seq<u8> {
    s.skip(ws_run_end(s, semi_run_end(s, 0)))
}

/// The end of the run of `;` bytes starting at `j`.
pub open spec fn semi_run_end(s: Seq<u8>, j: int) -> int
    decreases s.len() - j,
{
    if j < 0 || j >= s.len() || s[j] != 59 {
        j
    } else {
        semi_run_end(s, j + 1)
    }
}

/// The end of the run of whitespace bytes starting at `j`.
pub open spec fn ws_run_end(s: Seq<u8>, j: int) -> int
    decreases s.len() - j,
{
    if j < 0 || j >= s.len() || !is_ws(s[j]) {
        j
    } else {
        ws_run_end(s, j + 1)
    }
}

// ---------------------------------------------------------------------------
// Classification
// ---------------------------------------------------------------------------

/// Classifies one span against the shape predicates, in order. An unknown
/// `@directive` is a directive error; a span that matches no shape, or a
/// constant that does not fit a signed 64-bit value, is a lex error.
pub open spec fn spec_classify(s: Seq<u8>) -> Result<TokenV, AsmErrV> {
    if is_directive_span(s) {
        let n = ascii_lower(s);
        if n == "@code".spec_bytes() {
            Ok(TokenV::Directive(Directive::Code))
        } else if n == "@data".spec_bytes() {
            Ok(TokenV::Directive(Directive::Data))
        } else if n == "@space".spec_bytes() {
            Ok(TokenV::Directive(Directive::Space))
        } else {
            Err(AsmErrV::Directive(s))
        }
    } else if is_global_label_span(s) {
        Ok(TokenV::Label(LabelType::Global, s.drop_last()))
    } else if is_local_label_span(s) {
        Ok(TokenV::Label(LabelType::Local, s.drop_last()))
    } else if is_global_ref_span(s) {
        Ok(TokenV::Reference(LabelType::Global, s))
    } else if is_local_ref_span(s) {
        Ok(TokenV::Reference(LabelType::Local, s))
    } else if is_instruction_span(s) {
        Ok(TokenV::Instruction(s))
    } else if is_constant_span(s) {
        let v = spec_constant_value(s);
        if -0x8000_0000_0000_0000 <= v <= 0x7FFF_FFFF_FFFF_FFFF {
            Ok(TokenV::Constant(v as i64))
        } else {
            Err(AsmErrV::Lex(s))
        }
    } else if is_newline_span(s) {
        Ok(TokenV::NewLine)
    } else if is_comment_span(s) {
        Ok(TokenV::Comment(spec_comment_text(s)))
    } else {
        Err(AsmErrV::Lex(s))
    }
}

/// Whether an executable classification result matches the specification's.
pub open spec fn classify_matches(r: Result<Token, AsmError>, s: Seq<u8>) -> bool {
    match r {
        Ok(t) => spec_classify(s) == Ok::<TokenV, AsmErrV>(t@),
        Err(e) => spec_classify(s) == Err::<TokenV, AsmErrV>(e@),
    }
}

// ---------------------------------------------------------------------------
// Executable shape checks
// ---------------------------------------------------------------------------

/// Whether every byte of `s[from..to]` is a letter.
fn check_letters(s: &[u8], from: usize, to: usize) -> (r: bool)
    requires
        from <= to <= s@.len(),
    ensures
        r == (forall|i: int| from <= i < to ==> is_letter(#[trigger] s@[i])),
{
    let mut i: usize = from;
    while i < to
        invariant
            from <= i <= to <= s@.len(),
            forall|j: int| from <= j < i ==> is_letter(#[trigger] s@[j]),
        decreases to - i,
    {
        let b = s[i];
        if !((65 <= b && b <= 90) || (97 <= b && b <= 122)) {
            return false;
        }
        i += 1;
    }
    true
}

/// Whether every byte of `s[from..to]` is a word byte.
fn check_word_bytes(s: &[u8], from: usize, to: usize) -> (r: bool)
    requires
        from <= to <= s@.len(),
    ensures
        r == (forall|i: int| from <= i < to ==> is_word_byte(#[trigger] s@[i])),
{
    let mut i: usize = from;
    while i < to
        invariant
            from <= i <= to <= s@.len(),
            forall|j: int| from <= j < i ==> is_word_byte(#[trigger] s@[j]),
        decreases to - i,
    {
        let b = s[i];
        if !((65 <= b && b <= 90) || (97 <= b && b <= 122) || (48 <= b && b <= 57) || b == 95) {
            return false;
        }
        i += 1;
    }
    true
}

/// Whether every byte of `s[from..to]` is a letter or an underscore.
fn check_mnemonic_bytes(s: &[u8], from: usize, to: usize) -> (r: bool)
    requires
        from <= to <= s@.len(),
    ensures
        r == (forall|i: int| from <= i < to ==> is_mnemonic_byte(#[trigger] s@[i])),
{
    let mut i: usize = from;
    while i < to
        invariant
            from <= i <= to <= s@.len(),
            forall|j: int| from <= j < i ==> is_mnemonic_byte(#[trigger] s@[j]),
        decreases to - i,
    {
        let b = s[i];
        if !((65 <= b && b <= 90) || (97 <= b && b <= 122) || b == 95) {
            return false;
        }
        i += 1;
    }
    true
}

/// Whether every byte of `s[from..to]` is a digit.
fn check_digits(s: &[u8], from: usize, to: usize) -> (r: bool)
    requires
        from <= to <= s@.len(),
    ensures
        r == (forall|i: int| from <= i < to ==> is_digit(#[trigger] s@[i])),
{
    let mut i: usize = from;
    while i < to
        invariant
            from <= i <= to <= s@.len(),
            forall|j: int| from <= j < i ==> is_digit(#[trigger] s@[j]),
        decreases to - i,
    {
        let b = s[i];
        if !(48 <= b && b <= 57) {
            return false;
        }
        i += 1;
    }
    true
}

// ---------------------------------------------------------------------------
// Run-end lemmas: a scan that stops at the first stopping byte computes the
// matching run-end function
// ---------------------------------------------------------------------------

proof fn lemma_digit_prefix_end(t: Seq<u8>, j: int, m: int)
    requires
        0 <= j <= m <= t.len(),
        forall|i: int| j <= i < m ==> is_digit(#[trigger] t[i]),
        m == t.len() || !is_digit(t[m]),
    ensures
        digit_prefix_end(t, j) == m,
    decreases m - j,
{
    if j < m {
        lemma_digit_prefix_end(t, j + 1, m);
    }
}

proof fn lemma_semi_run_end(t: Seq<u8>, j: int, m: int)
    requires
        0 <= j <= m <= t.len(),
        forall|i: int| j <= i < m ==> #[trigger] t[i] == 59,
        m == t.len() || t[m] != 59,
    ensures
        semi_run_end(t, j) == m,
    decreases m - j,
{
    if j < m {
        lemma_semi_run_end(t, j + 1, m);
    }
}

proof fn lemma_ws_run_end(t: Seq<u8>, j: int, m: int)
    requires
        0 <= j <= m <= t.len(),
        forall|i: int| j <= i < m ==> is_ws(#[trigger] t[i]),
        m == t.len() || !is_ws(t[m]),
    ensures
        ws_run_end(t, j) == m,
    decreases m - j,
{
    if j < m {
        lemma_ws_run_end(t, j + 1, m);
    }
}

// ---------------------------------------------------------------------------
// Digit value lemmas
// ---------------------------------------------------------------------------

proof fn lemma_digits_value_nonneg(t: Seq<u8>)
    requires
        forall|i: int| 0 <= i < t.len() ==> is_digit(#[trigger] t[i]),
    ensures
        digits_value(t) >= 0,
    decreases t.len(),
{
    if t.len() > 0 {
        assert(forall|i: int|
            0 <= i < t.drop_last().len() ==> is_digit(#[trigger] t.drop_last()[i]));
        lemma_digits_value_nonneg(t.drop_last());
        assert(is_digit(t.last()));
    }
}

proof fn lemma_digits_value_prefix(t: Seq<u8>, m: int)
    requires
        0 <= m <= t.len(),
        forall|i: int| 0 <= i < t.len() ==> is_digit(#[trigger] t[i]),
    ensures
        digits_value(t.take(m)) <= digits_value(t),
    decreases t.len() - m,
{
    if m < t.len() {
        assert(t.take(m + 1).drop_last() =~= t.take(m));
        assert(forall|i: int| 0 <= i < m ==> is_digit(#[trigger] t.take(m)[i]));
        lemma_digits_value_nonneg(t.take(m));
        assert(digits_value(t.take(m + 1)) == digits_value(t.take(m)) * 10 + (t[m] - 48));
        assert(is_digit(t[m]));
        lemma_digits_value_prefix(t, m + 1);
    } else {
        assert(t.take(m) =~= t);
    }
}

// ---------------------------------------------------------------------------
// Executable constant recognition and parsing
// ---------------------------------------------------------------------------

/// Whether a span has the shape of an integer constant.
fn check_constant_span(s: &[u8]) -> (r: bool)
    ensures
        r == is_constant_span(s@),
{
    let len = s.len();
    if len == 0 {
        return false;
    }
    let start: usize = if s[0] == 45 {
        1
    } else {
        0
    };
    let ghost t = s@.skip(start as int);
    assert(t.len() == len - start);
    let mut j: usize = start;
    while j < len && 48 <= s[j] && s[j] <= 57
        invariant
            start <= j <= len,
            len == s@.len(),
            forall|i: int| start <= i < j ==> is_digit(#[trigger] s@[i]),
        decreases len - j,
    {
        j += 1;
    }
    if j == len {
        if j > start {
            proof {
                assert(forall|i: int| 0 <= i < t.len() ==> is_digit(#[trigger] t[i]));
            }
            true
        } else {
            proof {
                assert(t.len() == 0);
            }
            false
        }
    } else if s[j] != 46 {
        proof {
            assert(!is_digit(t[j - start]) && t[j - start] != 46);
            assert(!is_unsigned_constant_span(t)) by {
                if exists|k: int|
                    0 <= k < t.len() - 1 && t[k] == 46 && (forall|i: int|
                        0 <= i < t.len() && i != k ==> is_digit(#[trigger] t[i])) {
                    let k = choose|k: int|
                        0 <= k < t.len() - 1 && t[k] == 46 && (forall|i: int|
                            0 <= i < t.len() && i != k ==> is_digit(#[trigger] t[i]));
                    assert(k != j - start);
                    assert(is_digit(t[j - start]));
                }
            }
        }
        false
    } else if j + 1 >= len {
        proof {
            assert(t[j - start] == 46 && j - start == t.len() - 1);
            assert(!is_unsigned_constant_span(t)) by {
                if exists|k: int|
                    0 <= k < t.len() - 1 && t[k] == 46 && (forall|i: int|
                        0 <= i < t.len() && i != k ==> is_digit(#[trigger] t[i])) {
                    let k = choose|k: int|
                        0 <= k < t.len() - 1 && t[k] == 46 && (forall|i: int|
                            0 <= i < t.len() && i != k ==> is_digit(#[trigger] t[i]));
                    assert(k != j - start);
                    assert(is_digit(t[j - start]));
                }
            }
        }
        false
    } else if check_digits(s, j + 1, len) {
        proof {
            let k = j - start as int;
            assert(t[k] == 46);
            assert(forall|i: int| 0 <= i < t.len() && i != k ==> is_digit(#[trigger] t[i]));
            assert(is_unsigned_constant_span(t));
        }
        true
    } else {
        proof {
            let m = choose|m: int| j + 1 <= m < len && !is_digit(#[trigger] s@[m]);
            assert(!is_unsigned_constant_span(t)) by {
                if exists|k: int|
                    0 <= k < t.len() - 1 && t[k] == 46 && (forall|i: int|
                        0 <= i < t.len() && i != k ==> is_digit(#[trigger] t[i])) {
                    let k = choose|k: int|
                        0 <= k < t.len() - 1 && t[k] == 46 && (forall|i: int|
                            0 <= i < t.len() && i != k ==> is_digit(#[trigger] t[i]));
                    if k == j - start {
                        assert(is_digit(t[m - start]));
                        assert(is_digit(s@[m]));
                    } else {
                        assert(is_digit(t[j - start]));
                    }
                }
                assert(!(t.len() >= 1 && (forall|i: int|
                    0 <= i < t.len() ==> is_digit(#[trigger] t[i])))) by {
                    assert(!is_digit(t[j - start]));
                }
            }
        }
        false
    }
}

/// The signed 64-bit value of a constant span, or `None` when the written
/// value does not fit a signed 64-bit word.
fn constant_value(s: &[u8]) -> (r: Option<i64>)
    requires
        is_constant_span(s@),
    ensures
        match r {
            Some(v) => spec_constant_value(s@) == v as int,
            None => !(-0x8000_0000_0000_0000 <= spec_constant_value(s@) <= 0x7FFF_FFFF_FFFF_FFFF),
        },
{
    let len = s.len();
    assert(s@.len() >= 1);
    let neg = s[0] == 45;
    let start: usize = if neg {
        1
    } else {
        0
    };
    let ghost t = s@.skip(start as int);
    let mut j: usize = start;
    let mut acc: u64 = 0;
    let mut overflow: bool = false;
    while j < len && 48 <= s[j] && s[j] <= 57
        invariant
            start <= j <= len,
            len == s@.len(),
            forall|i: int| start <= i < j ==> is_digit(#[trigger] s@[i]),
            !overflow ==> acc == digits_value(s@.subrange(start as int, j as int)),
            overflow ==> digits_value(s@.subrange(start as int, j as int)) > u64::MAX,
        decreases len - j,
    {
        let ghost pre = s@.subrange(start as int, j as int);
        let ghost post = s@.subrange(start as int, j as int + 1);
        proof {
            assert(post.drop_last() =~= pre);
            assert(post.last() == s@[j as int]);
            assert(digits_value(post) == digits_value(pre) * 10 + (s@[j as int] - 48));
        }
        let d = (s[j] - 48) as u64;
        if !overflow {
            match acc.checked_mul(10) {
                Some(m10) => {
                    match m10.checked_add(d) {
                        Some(a2) => {
                            acc = a2;
                        },
                        None => {
                            overflow = true;
                        },
                    }
                },
                None => {
                    overflow = true;
                },
            }
        } else {
            proof {
                assert(forall|i: int| 0 <= i < pre.len() ==> is_digit(#[trigger] pre[i]));
                lemma_digits_value_nonneg(pre);
            }
        }
        j += 1;
    }
    proof {
        assert(forall|i: int| 0 <= i < j - start ==> is_digit(#[trigger] t[i]));
        lemma_digit_prefix_end(t, 0, j - start as int);
        assert(t.take(j - start as int) =~= s@.subrange(start as int, j as int));
    }
    let ghost value = spec_constant_value(s@);
    proof {
        if neg {
            assert(t == s@.skip(1));
        } else {
            assert(t =~= s@);
        }
        if neg {
            assert(value == -digits_value(s@.subrange(start as int, j as int)));
        } else {
            assert(value == digits_value(s@.subrange(start as int, j as int)));
        }
    }
    if overflow {
        proof {
            assert(digits_value(s@.subrange(start as int, j as int)) > u64::MAX);
        }
        return None;
    }
    if neg {
        if acc > 9223372036854775808u64 {
            None
        } else if acc == 9223372036854775808u64 {
            Some(i64::MIN)
        } else {
            Some(-(acc as i64))
        }
    } else {
        if acc > 9223372036854775807u64 {
            None
        } else {
            Some(acc as i64)
        }
    }
}

/// The comment text of a comment span: what follows the leading `;` run and
/// the whitespace after it.
fn comment_text(s: &[u8]) -> (r: Vec<u8>)
    ensures
        r@ == spec_comment_text(s@),
{
    let len = s.len();
    let mut j: usize = 0;
    while j < len && s[j] == 59
        invariant
            j <= len,
            len == s@.len(),
            forall|i: int| 0 <= i < j ==> #[trigger] s@[i] == 59,
        decreases len - j,
    {
        j += 1;
    }
    proof {
        lemma_semi_run_end(s@, 0, j as int);
    }
    let ghost j1 = j as int;
    let mut k: usize = j;
    while k < len && (s[k] == 32 || s[k] == 9 || s[k] == 10 || s[k] == 13 || s[k] == 11 || s[k]
        == 12)
        invariant
            j1 <= k <= len,
            len == s@.len(),
            forall|i: int| j1 <= i < k ==> is_ws(#[trigger] s@[i]),
        decreases len - k,
    {
        k += 1;
    }
    proof {
        lemma_ws_run_end(s@, j1, k as int);
        assert(s@.subrange(k as int, len as int) =~= s@.skip(k as int));
    }
    slice_to_vec(slice_subrange(s, k, len))
}

// ---------------------------------------------------------------------------
// Executable classification
// ---------------------------------------------------------------------------

/// Classifies one span of source text against the token shapes, in order.
pub fn classify_span(s: &[u8]) -> (r: Result<Token, AsmError>)
    ensures
        classify_matches(r, s@),
{
    let len = s.len();
    if len >= 2 && s[0] == 64 && check_letters(s, 1, len) {
        let low = ascii_lower_vec(s);
        if bytes_eq_str(low.as_slice(), "@code") {
            Ok(Token::Directive(Directive::Code))
        } else if bytes_eq_str(low.as_slice(), "@data") {
            Ok(Token::Directive(Directive::Data))
        } else if bytes_eq_str(low.as_slice(), "@space") {
            Ok(Token::Directive(Directive::Space))
        } else {
            Err(AsmError::Directive(slice_to_vec(s)))
        }
    } else if len >= 3 && s[0] == 46 && s[len - 1] == 58 && check_word_bytes(s, 1, len - 1) {
        let name = slice_to_vec(slice_subrange(s, 0, len - 1));
        proof {
            assert(name@ =~= s@.drop_last());
        }
        Ok(Token::Label(LabelType::Global, name))
    } else if len >= 3 && s[0] == 39 && s[len - 1] == 58 && check_word_bytes(s, 1, len - 1) {
        let name = slice_to_vec(slice_subrange(s, 0, len - 1));
        proof {
            assert(name@ =~= s@.drop_last());
        }
        Ok(Token::Label(LabelType::Local, name))
    } else if len >= 2 && s[0] == 46 && check_word_bytes(s, 1, len) {
        Ok(Token::Reference(LabelType::Global, slice_to_vec(s)))
    } else if len >= 2 && s[0] == 39 && check_word_bytes(s, 1, len) {
        Ok(Token::Reference(LabelType::Local, slice_to_vec(s)))
    } else if len >= 1 && check_mnemonic_bytes(s, 0, len) {
        Ok(Token::Instruction(slice_to_vec(s)))
    } else if check_constant_span(s) {
        match constant_value(s) {
            Some(v) => Ok(Token::Constant(v)),
            None => Err(AsmError::Lex(slice_to_vec(s))),
        }
    } else if len == 1 && s[0] == 10 {
        proof {
            assert(s@ =~= seq![10u8]);
        }
        Ok(Token::NewLine)
    } else if len >= 2 && s[0] == 59 && s[1] != 10 {
        Ok(Token::Comment(comment_text(s)))
    } else {
        proof {
            assert(!is_newline_span(s@));
        }
        Err(AsmError::Lex(slice_to_vec(s)))
    }
}

impl Token {
    /// Classifies one span of source text, as the lexer would.
    pub fn from_string(string: &str) -> (r: Result<Token, AsmError>)
        ensures
            classify_matches(r, string.spec_bytes()),
    {
        classify_span(string.as_bytes())
    }
}

/// A copy of a token that provably carries the same content.
pub fn dup_token(t: &Token) -> (r: Token)
    ensures
        r@ == t@,
{
    match t {
        Token::Label(lt, n) => Token::Label(*lt, crate::bytes::dup_bytes(n)),
        Token::Reference(lt, n) => Token::Reference(*lt, crate::bytes::dup_bytes(n)),
        Token::Directive(d) => Token::Directive(*d),
        Token::Instruction(n) => Token::Instruction(crate::bytes::dup_bytes(n)),
        Token::Constant(v) => Token::Constant(*v),
        Token::NewLine => Token::NewLine,
        Token::Comment(c) => Token::Comment(crate::bytes::dup_bytes(c)),
        Token::Eof => Token::Eof,
    }
}

// ---------------------------------------------------------------------------
// Span scanning
// ---------------------------------------------------------------------------

/// A span separator: space, newline, or the start of a comment.
pub open spec fn is_delim(b: u8) -> bool {
    b == 32 || b == 10 || b == 59
}

/// The end of the ordinary span running from `j`: the first separator at or
/// after `j`, or the end of the input.
pub open spec fn span_end(s: Seq<u8>, j: int) -> int
    decreases s.len() - j,
{
    if j < 0 || j >= s.len() || is_delim(s[j]) {
        j
    } else {
        span_end(s, j + 1)
    }
}

/// The end of the comment span running from `j`: the first newline at or
/// after `j`, or the end of the input.
pub open spec fn comment_end(s: Seq<u8>, j: int) -> int
    decreases s.len() - j,
{
    if j < 0 || j >= s.len() || s[j] == 10 {
        j
    } else {
        comment_end(s, j + 1)
    }
}

proof fn lemma_span_end(t: Seq<u8>, j: int, m: int)
    requires
        0 <= j <= m <= t.len(),
        forall|i: int| j <= i < m ==> !is_delim(#[trigger] t[i]),
        m == t.len() || is_delim(t[m]),
    ensures
        span_end(t, j) == m,
    decreases m - j,
{
    if j < m {
        lemma_span_end(t, j + 1, m);
    }
}

proof fn lemma_comment_end(t: Seq<u8>, j: int, m: int)
    requires
        0 <= j <= m <= t.len(),
        forall|i: int| j <= i < m ==> #[trigger] t[i] != 10,
        m == t.len() || t[m] == 10,
    ensures
        comment_end(t, j) == m,
    decreases m - j,
{
    if j < m {
        lemma_comment_end(t, j + 1, m);
    }
}

// ---------------------------------------------------------------------------
// The tokenization of a whole input
// ---------------------------------------------------------------------------

/// Prepends a classified token to the tokens that follow it, or carries the
/// first error outward.
pub open spec fn lex_step(
    c: Result<TokenV, AsmErrV>,
    rest: Result<Seq<TokenV>, AsmErrV>,
) -> Result<Seq<TokenV>, AsmErrV> {
    match c {
        Err(e) => Err(e),
        Ok(t) => match rest {
            Ok(r) => Ok(seq![t] + r),
            Err(e) => Err(e),
        },
    }
}

/// The tokens of `s` from position `i` on (without the final end-of-input
/// marker), or the first offending span.
pub open spec fn spec_lex_from(s: Seq<u8>, i: int) -> Result<Seq<TokenV>, AsmErrV>
    decreases s.len() - i,
{
    if i < 0 || i >= s.len() {
        Ok(Seq::empty())
    } else if s[i] == 32 {
        spec_lex_from(s, i + 1)
    } else {
        let stop = if s[i] == 10 {
            i + 1
        } else if s[i] == 59 {
            comment_end(s, i + 1)
        } else {
            span_end(s, i + 1)
        };
        let end = if stop <= i {
            i + 1
        } else if stop > s.len() {
            s.len() as int
        } else {
            stop
        };
        lex_step(spec_classify(s.subrange(i, end)), spec_lex_from(s, end))
    }
}

/// The tokenization of a whole input: its spans classified in order and
/// terminated by an end-of-input marker, or the first offending span.
pub open spec fn spec_lex(s: Seq<u8>) -> Result<Seq<TokenV>, AsmErrV> {
    match spec_lex_from(s, 0) {
        Ok(ts) => Ok(ts.push(TokenV::Eof)),
        Err(e) => Err(e),
    }
}

/// Tokens already produced, followed by what tokenization of the rest
/// gives.
pub open spec fn lex_concat(
    a: Seq<TokenV>,
    rest: Result<Seq<TokenV>, AsmErrV>,
) -> Result<Seq<TokenV>, AsmErrV> {
    match rest {
        Ok(ts) => Ok(a + ts),
        Err(e) => Err(e),
    }
}

proof fn lemma_lex_concat_step(a: Seq<TokenV>, t: TokenV, rest: Result<Seq<TokenV>, AsmErrV>)
    ensures
        lex_concat(a, lex_step(Ok(t), rest)) == lex_concat(a.push(t), rest),
{
    match rest {
        Ok(ts) => {
            assert(a + (seq![t] + ts) =~= a.push(t) + ts);
        },
        Err(_) => {},
    }
}

/// Whether an executable tokenization result matches the specification's.
pub open spec fn lex_matches(r: Result<Vec<Token>, AsmError>, src: Seq<u8>) -> bool {
    match r {
        Ok(toks) => spec_lex(src) == Ok::<Seq<TokenV>, AsmErrV>(toks.deep_view()),
        Err(e) => spec_lex(src) == Err::<Seq<TokenV>, AsmErrV>(e@),
    }
}

// ---------------------------------------------------------------------------
// The lexer
// ---------------------------------------------------------------------------

/// A cursor over the source text. `next_valid` hands out one span at a
/// time; `lex` drains the cursor into a token vector.
pub struct Lexer<'a> {
    pub source: &'a [u8],
    pub base_index: usize,
}

impl<'a> Lexer<'a> {
    /// The cursor never stands past the end of the source.
    pub open spec fn wf(&self) -> bool {
        self.base_index <= self.source@.len()
    }

    /// A fresh cursor at the start of the source text.
    pub fn new(source: &'a str) -> (l: Lexer<'a>)
        ensures
            l.source@ == source.spec_bytes(),
            l.base_index == 0,
            l.wf(),
    {
        Lexer { source: source.as_bytes(), base_index: 0 }
    }

    /// Skips separators and hands out the next span: a lone newline, a
    /// comment running to the end of the line, or a run of bytes up to the
    /// next separator. An empty span means the input is exhausted.
    pub fn next_valid(&mut self) -> (span: &'a [u8])
        requires
            old(self).wf(),
        ensures
            final(self).wf(),
            final(self).source == old(self).source,
            old(self).base_index <= final(self).base_index,
            span@.len() == 0 ==> final(self).base_index == old(self).source@.len()
                && spec_lex_from(old(self).source@, old(self).base_index as int) == Ok::<
                Seq<TokenV>,
                AsmErrV,
            >(Seq::empty()),
            span@.len() > 0 ==> old(self).base_index < final(self).base_index && spec_lex_from(
                old(self).source@,
                old(self).base_index as int,
            ) == lex_step(
                spec_classify(span@),
                spec_lex_from(old(self).source@, final(self).base_index as int),
            ),
    {
        let src = self.source;
        let len = src.len();
        let ghost s = src@;
        let ghost b0 = self.base_index as int;
        let mut idx = self.base_index;
        while idx < len && src[idx] == 32
            invariant
                b0 <= idx <= len,
                len == s.len(),
                src@ == s,
                spec_lex_from(s, b0) == spec_lex_from(s, idx as int),
            decreases len - idx,
        {
            proof {
                assert(spec_lex_from(s, idx as int) == spec_lex_from(s, idx as int + 1));
            }
            idx += 1;
        }
        if idx >= len {
            self.base_index = idx;
            return slice_subrange(src, len, len);
        }
        let c = src[idx];
        let end: usize;
        if c == 10 {
            end = idx + 1;
        } else if c == 59 {
            let mut j = idx + 1;
            while j < len && src[j] != 10
                invariant
                    idx + 1 <= j <= len,
                    len == s.len(),
                    src@ == s,
                    forall|i: int| idx + 1 <= i < j ==> #[trigger] s[i] != 10,
                decreases len - j,
            {
                j += 1;
            }
            proof {
                lemma_comment_end(s, idx as int + 1, j as int);
            }
            end = j;
        } else {
            let mut j = idx + 1;
            while j < len && src[j] != 32 && src[j] != 10 && src[j] != 59
                invariant
                    idx + 1 <= j <= len,
                    len == s.len(),
                    src@ == s,
                    forall|i: int| idx + 1 <= i < j ==> !is_delim(#[trigger] s[i]),
                decreases len - j,
            {
                j += 1;
            }
            proof {
                lemma_span_end(s, idx as int + 1, j as int);
            }
            end = j;
        }
        let span = slice_subrange(src, idx, end);
        self.base_index = end;
        proof {
            assert(spec_lex_from(s, idx as int) == lex_step(
                spec_classify(s.subrange(idx as int, end as int)),
                spec_lex_from(s, end as int),
            ));
        }
        span
    }

    /// Drains the cursor: the token vector of the whole source, terminated
    /// by an end-of-input marker, or the first fatal lexing diagnostic.
    pub fn lex(&mut self) -> (r: Result<Vec<Token>, AsmError>)
        requires
            old(self).wf(),
            old(self).base_index == 0,
        ensures
            lex_matches(r, old(self).source@),
    {
        let ghost s = self.source@;
        let mut tokens: Vec<Token> = Vec::new();
        proof {
            assert(tokens.deep_view() + Seq::<TokenV>::empty() =~= tokens.deep_view());
        }
        loop
            invariant
                self.wf(),
                self.source@ == s,
                old(self).source@ == s,
                spec_lex_from(s, 0) == lex_concat(
                    tokens.deep_view(),
                    spec_lex_from(s, self.base_index as int),
                ),
            ensures
                spec_lex_from(s, 0) == Ok::<Seq<TokenV>, AsmErrV>(tokens.deep_view()),
            decreases s.len() - self.base_index,
        {
            let ghost base_prev = self.base_index as int;
            let span = self.next_valid();
            if span.len() == 0 {
                proof {
                    assert(tokens.deep_view() + Seq::<TokenV>::empty() =~= tokens.deep_view());
                }
                break ;
            }
            match classify_span(span) {
                Ok(tok) => {
                    let ghost rest = spec_lex_from(s, self.base_index as int);
                    let ghost dv0 = tokens.deep_view();
                    proof {
                        lemma_lex_concat_step(dv0, tok@, rest);
                    }
                    tokens.push(tok);
                    proof {
                        assert(tokens.deep_view() =~= dv0.push(tok@));
                    }
                },
                Err(e) => {
                    proof {
                        assert(spec_lex(s) == Err::<Seq<TokenV>, AsmErrV>(e@));
                    }
                    return Err(e);
                },
            }
        }
        let ghost dv1 = tokens.deep_view();
        tokens.push(Token::Eof);
        proof {
            assert(tokens.deep_view() =~= dv1.push(TokenV::Eof));
        }
        Ok(tokens)
    }
}

} // verus!
