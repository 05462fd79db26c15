//! The tokenizer: turns source text into an ordered sequence of tokens.
//!
//! Whitespace separates tokens, and `//` at a token boundary starts a comment
//! that runs to the end of the line.  A word of the form `<name>` is a
//! header; known header names map to their kind and unknown ones are ignored.
//! A word containing `=` is an opcode declaration; unknown opcode names and
//! bare words are ignored.  A recognized opcode whose value is not
//! syntactically a number of the expected width is a fatal error that aborts
//! the whole parse; a value that is merely out of range, or an unknown
//! enumeration word, resolves to an absent value and the opcode is dropped.

use vstd::prelude::*;

use crate::parse::build_key_name_map;
use crate::parse::lemma_table_values;
use crate::parse::lookup_key_table;
use crate::parse::lower_chars;
use crate::parse::parse_signed_chars;
use crate::parse::parse_unsigned_chars;
use crate::parse::signed_lit;
use crate::parse::u8_key_valid;
use crate::parse::u8_key_value;
use crate::parse::unsigned_lit;
use crate::token::clone_chars;
use crate::token::HeaderKind;
use crate::token::LitKind;
use crate::token::LoopModeKind;
use crate::token::Opcode;
use crate::token::OpV;
use crate::token::Token;
use crate::token::TokV;
use crate::token::TriggerKind;

verus! {

/// A fatal literal error: the offending text and the domain that was
/// expected of it.
#[derive(Debug, PartialEq)]
pub struct SfzError {
    pub literal: Vec<char>,
    pub kind: LitKind,
}

/// Mathematical image of an `SfzError`.
pub struct ErrV {
    pub literal: Seq<char>,
    pub kind: LitKind,
}

impl View for SfzError {
    type V = ErrV;

    open spec fn view(&self) -> ErrV {
        ErrV { literal: self.literal@, kind: self.kind }
    }
}

// ---------------------------------------------------------------------------
// Lexical structure
// ---------------------------------------------------------------------------

pub open spec fn is_ws_char(c: char) -> bool {
    c == ' ' || c == '\t' || c == '\r' || c == '\n'
}

/// Length of the maximal non-whitespace run at the front of `s`.
pub open spec fn word_len(s: Seq<char>) -> int
    decreases s.len(),
{
    if s.len() == 0 || is_ws_char(s[0]) {
        0
    } else {
        1 + word_len(s.skip(1))
    }
}

/// Number of characters a comment starting at the front of `s` consumes:
/// through the first newline, or all of `s`.
pub open spec fn line_len(s: Seq<char>) -> int
    decreases s.len(),
{
    if s.len() == 0 {
        0
    } else if s[0] == '\n' {
        1
    } else {
        1 + line_len(s.skip(1))
    }
}

/// `word_len` is the index of the first whitespace character.
proof fn lemma_word_len_at(s: Seq<char>, n: int)
    requires
        0 <= n <= s.len(),
        forall|j: int| 0 <= j < n ==> !is_ws_char(#[trigger] s[j]),
        n < s.len() ==> is_ws_char(s[n]),
    ensures
        word_len(s) == n,
    decreases n,
{
    if n == 0 {
    } else {
        lemma_word_len_at(s.skip(1), n - 1);
    }
}

proof fn lemma_word_len_bounds(s: Seq<char>)
    ensures
        0 <= word_len(s) <= s.len(),
        s.len() > 0 && !is_ws_char(s[0]) ==> word_len(s) >= 1,
    decreases s.len(),
{
    if s.len() == 0 || is_ws_char(s[0]) {
    } else {
        lemma_word_len_bounds(s.skip(1));
    }
}

/// `line_len` runs through the first newline.
proof fn lemma_line_len_at(s: Seq<char>, n: int)
    requires
        0 <= n <= s.len(),
        forall|j: int| 0 <= j < n ==> s[j] != '\n',
        n < s.len() ==> s[n] == '\n',
    ensures
        line_len(s) == if n == s.len() {
            n
        } else {
            n + 1
        },
    decreases n,
{
    if n == 0 {
    } else {
        lemma_line_len_at(s.skip(1), n - 1);
    }
}

proof fn lemma_line_len_bounds(s: Seq<char>)
    ensures
        0 <= line_len(s) <= s.len(),
        s.len() > 0 ==> line_len(s) >= 1,
    decreases s.len(),
{
    if s.len() == 0 {
    } else if s[0] == '\n' {
    } else {
        lemma_line_len_bounds(s.skip(1));
    }
}

/// Index of the first `=` in `w`, or -1.
pub open spec fn eq_pos(w: Seq<char>) -> int
    decreases w.len(),
{
    if w.len() == 0 {
        -1
    } else if w[0] == '=' {
        0
    } else {
        if eq_pos(w.skip(1)) == -1 {
            -1
        } else {
            1 + eq_pos(w.skip(1))
        }
    }
}

proof fn lemma_eq_pos_at(w: Seq<char>, n: int)
    requires
        0 <= n <= w.len(),
        forall|j: int| 0 <= j < n ==> w[j] != '=',
        n < w.len() ==> w[n] == '=',
    ensures
        eq_pos(w) == if n == w.len() {
            -1
        } else {
            n
        },
    decreases n,
{
    if n == 0 {
    } else {
        lemma_eq_pos_at(w.skip(1), n - 1);
    }
}

// ---------------------------------------------------------------------------
// Word classification
// ---------------------------------------------------------------------------

/// The header kind a bracketed name selects, if it is known.
pub open spec fn header_of(name: Seq<char>) -> Option<HeaderKind> {
    if name == "control"@ {
        Some(HeaderKind::Control)
    } else if name == "global"@ {
        Some(HeaderKind::Global)
    } else if name == "master"@ {
        Some(HeaderKind::Master)
    } else if name == "group"@ {
        Some(HeaderKind::Group)
    } else if name == "region"@ {
        Some(HeaderKind::Region)
    } else if name == "curve"@ {
        Some(HeaderKind::Curve)
    } else if name == "effect"@ {
        Some(HeaderKind::Effect)
    } else {
        None
    }
}

/// Value of the `loop_mode` enumeration, if the word is one of its members.
pub open spec fn loop_mode_of(value: Seq<char>) -> Option<LoopModeKind> {
    if value == "no_loop"@ {
        Some(LoopModeKind::NoLoop)
    } else if value == "one_shot"@ {
        Some(LoopModeKind::OneShot)
    } else if value == "loop_continuous"@ {
        Some(LoopModeKind::LoopContinuous)
    } else if value == "loop_sustain"@ {
        Some(LoopModeKind::LoopSustain)
    } else {
        None
    }
}

/// Value of the `trigger` enumeration, if the word is one of its members.
pub open spec fn trigger_of(value: Seq<char>) -> Option<TriggerKind> {
    if value == "attack"@ {
        Some(TriggerKind::Attack)
    } else if value == "release"@ {
        Some(TriggerKind::Release)
    } else if value == "first"@ {
        Some(TriggerKind::First)
    } else if value == "legato"@ {
        Some(TriggerKind::Legato)
    } else {
        None
    }
}

/// A key-valued opcode: a key name or unsigned key number; out-of-range keys
/// are absent.
pub open spec fn key_code(value: Seq<char>) -> Result<Option<u8>, ErrV> {
    if u8_key_valid(value) {
        Ok(
            match u8_key_value(value) {
                Some(v) => Some(v as u8),
                None => None,
            },
        )
    } else {
        Err(ErrV { literal: value, kind: LitKind::KeyLit })
    }
}

/// A `u8`-valued opcode restricted to `[min, max]`.
pub open spec fn ranged_u8(value: Seq<char>, min: int, max: int, kind: LitKind) -> Result<
    Option<u8>,
    ErrV,
> {
    match unsigned_lit(value, u8::MAX as int) {
        Some(v) => if min <= v && v <= max {
            Ok(Some(v as u8))
        } else {
            Ok(None)
        },
        None => Err(ErrV { literal: value, kind }),
    }
}

/// An `i8`-valued opcode restricted to `[min, max]`.
pub open spec fn ranged_i8(value: Seq<char>, min: int, max: int, kind: LitKind) -> Result<
    Option<i8>,
    ErrV,
> {
    match signed_lit(value, i8::MIN as int, i8::MAX as int) {
        Some(v) => if min <= v && v <= max {
            Ok(Some(v as i8))
        } else {
            Ok(None)
        },
        None => Err(ErrV { literal: value, kind }),
    }
}

/// An `i16`-valued opcode restricted to `[min, max]`.
pub open spec fn ranged_i16(value: Seq<char>, min: int, max: int, kind: LitKind) -> Result<
    Option<i16>,
    ErrV,
> {
    match signed_lit(value, i16::MIN as int, i16::MAX as int) {
        Some(v) => if min <= v && v <= max {
            Ok(Some(v as i16))
        } else {
            Ok(None)
        },
        None => Err(ErrV { literal: value, kind }),
    }
}

/// A plain `u32`-valued opcode.
pub open spec fn plain_u32(value: Seq<char>, kind: LitKind) -> Result<u32, ErrV> {
    match unsigned_lit(value, u32::MAX as int) {
        Some(v) => Ok(v as u32),
        None => Err(ErrV { literal: value, kind }),
    }
}

/// Maps an opcode value result carrying `f` into an optional token.
pub open spec fn op_tok<T>(r: Result<Option<T>, ErrV>, f: spec_fn(T) -> OpV) -> Result<
    Option<TokV>,
    ErrV,
> {
    match r {
        Ok(Some(v)) => Ok(Some(TokV::Opcode(f(v)))),
        Ok(None) => Ok(None),
        Err(e) => Err(e),
    }
}

/// The token an opcode declaration `name=value` produces: `Ok(None)` when
/// the name is unknown or the value out of range, an error when the value is
/// a fatal literal failure.
pub open spec fn opcode_of(name: Seq<char>, value: Seq<char>) -> Result<Option<TokV>, ErrV> {
    if name == "sample"@ {
        Ok(Some(TokV::Opcode(OpV::Sample(value))))
    } else if name == "default_path"@ {
        Ok(Some(TokV::Opcode(OpV::DefaultPath(value))))
    } else if name == "key"@ {
        op_tok(key_code(value), |v: u8| OpV::Key(v))
    } else if name == "lokey"@ {
        op_tok(key_code(value), |v: u8| OpV::Lokey(v))
    } else if name == "hikey"@ {
        op_tok(key_code(value), |v: u8| OpV::Hikey(v))
    } else if name == "pitch_keycenter"@ {
        op_tok(key_code(value), |v: u8| OpV::PitchKeycenter(v))
    } else if name == "lovel"@ {
        op_tok(ranged_u8(value, 0, 127, LitKind::U8Lit), |v: u8| OpV::Lovel(v))
    } else if name == "hivel"@ {
        op_tok(ranged_u8(value, 0, 127, LitKind::U8Lit), |v: u8| OpV::Hivel(v))
    } else if name == "seq_length"@ {
        op_tok(ranged_u8(value, 1, 100, LitKind::U8Lit), |v: u8| OpV::SeqLength(v))
    } else if name == "seq_position"@ {
        op_tok(ranged_u8(value, 1, 100, LitKind::U8Lit), |v: u8| OpV::SeqPosition(v))
    } else if name == "transpose"@ {
        op_tok(ranged_i8(value, -127, 127, LitKind::I8Lit), |v: i8| OpV::Transpose(v))
    } else if name == "tune"@ {
        op_tok(ranged_i16(value, -100, 100, LitKind::I16Lit), |v: i16| OpV::Tune(v))
    } else if name == "offset"@ {
        match plain_u32(value, LitKind::U32Lit) {
            Ok(v) => Ok(Some(TokV::Opcode(OpV::Offset(v)))),
            Err(e) => Err(e),
        }
    } else if name == "count"@ {
        match plain_u32(value, LitKind::U32Lit) {
            Ok(v) => Ok(Some(TokV::Opcode(OpV::Count(v)))),
            Err(e) => Err(e),
        }
    } else if name == "loop_mode"@ {
        match loop_mode_of(value) {
            Some(m) => Ok(Some(TokV::Opcode(OpV::LoopMode(m)))),
            None => Ok(None),
        }
    } else if name == "trigger"@ {
        match trigger_of(value) {
            Some(t) => Ok(Some(TokV::Opcode(OpV::Trigger(t)))),
            None => Ok(None),
        }
    } else {
        Ok(None)
    }
}

/// The token one word produces: a header, an opcode, nothing, or a fatal
/// error.
pub open spec fn classify(w: Seq<char>) -> Result<Option<TokV>, ErrV> {
    if w.len() >= 2 && w[0] == '<' && w.last() == '>' {
        match header_of(w.subrange(1, w.len() - 1)) {
            Some(h) => Ok(Some(TokV::Header(h))),
            None => Ok(None),
        }
    } else if eq_pos(w) >= 0 {
        opcode_of(w.take(eq_pos(w)), w.skip(eq_pos(w) + 1))
    } else {
        Ok(None)
    }
}

/// The token sequence of a whole source text, or its first fatal error.
pub open spec fn spec_tokenize(s: Seq<char>) -> Result<Seq<TokV>, ErrV>
    decreases s.len(),
    via spec_tokenize_decreases
{
    if s.len() == 0 {
        Ok(Seq::empty())
    } else if is_ws_char(s[0]) {
        spec_tokenize(s.skip(1))
    } else if s.len() >= 2 && s[0] == '/' && s[1] == '/' {
        spec_tokenize(s.skip(line_len(s)))
    } else {
        match classify(s.take(word_len(s))) {
            Err(e) => Err(e),
            Ok(None) => spec_tokenize(s.skip(word_len(s))),
            Ok(Some(t)) => match spec_tokenize(s.skip(word_len(s))) {
                Ok(ts) => Ok(seq![t] + ts),
                Err(e) => Err(e),
            },
        }
    }
}

#[via_fn]
proof fn spec_tokenize_decreases(s: Seq<char>) {
    lemma_word_len_bounds(s);
    lemma_line_len_bounds(s);
}

// ---------------------------------------------------------------------------
// Executable tokenizer
// ---------------------------------------------------------------------------

/// How an executable classification result corresponds to its specification.
pub open spec fn res_tok_matches(r: Result<Option<Token>, SfzError>, s: Result<
    Option<TokV>,
    ErrV,
>) -> bool {
    match (r, s) {
        (Ok(Some(t)), Ok(Some(tv))) => t.deep_view() == tv,
        (Ok(None), Ok(None)) => true,
        (Err(e), Err(f)) => e@ == f,
        _ => false,
    }
}

fn is_ws_exec(c: char) -> (r: bool)
    ensures
        r == is_ws_char(c),
{
    match c {
        ' ' | '\t' | '\r' | '\n' => true,
        _ => false,
    }
}

/// Copies `v[from..to]`.
fn copy_range(v: &Vec<char>, from: usize, to: usize) -> (r: Vec<char>)
    requires
        from <= to <= v@.len(),
    ensures
        r@ == v@.subrange(from as int, to as int),
{
    let mut r: Vec<char> = Vec::new();
    let mut i: usize = from;
    while i < to
        invariant
            from <= i <= to <= v@.len(),
            r@ == v@.subrange(from as int, i as int),
        decreases to - i,
    {
        r.push(v[i]);
        proof {
            assert(r@ =~= v@.subrange(from as int, i + 1));
        }
        i += 1;
    }
    r
}

/// Compares a character vector to a string literal.
fn eq_str(w: &Vec<char>, s: &str) -> (r: bool)
    ensures
        r == (w@ == s@),
{
    let n = s.unicode_len();
    if w.len() != n {
        return false;
    }
    let mut i: usize = 0;
    while i < n
        invariant
            i <= n,
            n == s@.len(),
            w@.len() == n,
            forall|j: int| 0 <= j < i ==> w@[j] == s@[j],
        decreases n - i,
    {
        if w[i] != s.get_char(i) {
            return false;
        }
        i += 1;
    }
    proof {
        assert(w@ =~= s@);
    }
    true
}

/// Finds the first `=` in `w`.
fn find_eq(w: &Vec<char>) -> (r: Option<usize>)
    ensures
        match r {
            Some(p) => eq_pos(w@) == p && p < w@.len(),
            None => eq_pos(w@) == -1,
        },
{
    let mut i: usize = 0;
    while i < w.len()
        invariant
            i <= w@.len(),
            forall|j: int| 0 <= j < i ==> w@[j] != '=',
        decreases w@.len() - i,
    {
        if w[i] == '=' {
            proof {
                lemma_eq_pos_at(w@, i as int);
            }
            return Some(i);
        }
        i += 1;
    }
    proof {
        lemma_eq_pos_at(w@, w@.len() as int);
    }
    None
}

/// Resolves a key-valued opcode payload.
fn key_u8_exec(value: &Vec<char>) -> (r: Result<Option<u8>, SfzError>)
    ensures
        match (r, key_code(value@)) {
            (Ok(a), Ok(b)) => a == b,
            (Err(e), Err(f)) => e@ == f,
            _ => false,
        },
{
    let low = lower_chars(value);
    let table = build_key_name_map();
    proof {
        lemma_table_values(127, low@);
    }
    match lookup_key_table(&table, &low) {
        Some(k) => if k < 0 {
            Ok(None)
        } else {
            Ok(Some(k as u8))
        },
        None => match parse_unsigned_chars(value, 255) {
            Some(n) => if n > 127 {
                Ok(None)
            } else {
                Ok(Some(n as u8))
            },
            None => Err(SfzError { literal: clone_chars(value), kind: LitKind::KeyLit }),
        },
    }
}

/// Resolves a ranged `u8` opcode payload.
fn ranged_u8_exec(value: &Vec<char>, min: u8, max: u8, kind: LitKind) -> (r: Result<
    Option<u8>,
    SfzError,
>)
    ensures
        match (r, ranged_u8(value@, min as int, max as int, kind)) {
            (Ok(a), Ok(b)) => a == b,
            (Err(e), Err(f)) => e@ == f,
            _ => false,
        },
{
    match parse_unsigned_chars(value, 255) {
        Some(n) => if min as u64 <= n && n <= max as u64 {
            Ok(Some(n as u8))
        } else {
            Ok(None)
        },
        None => Err(SfzError { literal: clone_chars(value), kind }),
    }
}

/// Resolves a ranged `i8` opcode payload.
fn ranged_i8_exec(value: &Vec<char>, min: i8, max: i8, kind: LitKind) -> (r: Result<
    Option<i8>,
    SfzError,
>)
    ensures
        match (r, ranged_i8(value@, min as int, max as int, kind)) {
            (Ok(a), Ok(b)) => a == b,
            (Err(e), Err(f)) => e@ == f,
            _ => false,
        },
{
    match parse_signed_chars(value, -128, 127) {
        Some(n) => if min as i64 <= n && n <= max as i64 {
            Ok(Some(n as i8))
        } else {
            Ok(None)
        },
        None => Err(SfzError { literal: clone_chars(value), kind }),
    }
}

/// Resolves a ranged `i16` opcode payload.
fn ranged_i16_exec(value: &Vec<char>, min: i16, max: i16, kind: LitKind) -> (r: Result<
    Option<i16>,
    SfzError,
>)
    ensures
        match (r, ranged_i16(value@, min as int, max as int, kind)) {
            (Ok(a), Ok(b)) => a == b,
            (Err(e), Err(f)) => e@ == f,
            _ => false,
        },
{
    match parse_signed_chars(value, -32768, 32767) {
        Some(n) => if min as i64 <= n && n <= max as i64 {
            Ok(Some(n as i16))
        } else {
            Ok(None)
        },
        None => Err(SfzError { literal: clone_chars(value), kind }),
    }
}

/// Resolves a plain `u32` opcode payload.
fn plain_u32_exec(value: &Vec<char>, kind: LitKind) -> (r: Result<u32, SfzError>)
    ensures
        match (r, plain_u32(value@, kind)) {
            (Ok(a), Ok(b)) => a == b,
            (Err(e), Err(f)) => e@ == f,
            _ => false,
        },
{
    match parse_unsigned_chars(value, 0xFFFF_FFFF) {
        Some(n) => Ok(n as u32),
        None => Err(SfzError { literal: clone_chars(value), kind }),
    }
}

/// Classifies an opcode declaration.
fn opcode_word(name: &Vec<char>, value: &Vec<char>) -> (r: Result<Option<Token>, SfzError>)
    ensures
        res_tok_matches(r, opcode_of(name@, value@)),
{
    if eq_str(name, "sample") {
        Ok(Some(Token::Opcode(Opcode::Sample(clone_chars(value)))))
    } else if eq_str(name, "default_path") {
        Ok(Some(Token::Opcode(Opcode::DefaultPath(clone_chars(value)))))
    } else if eq_str(name, "key") {
        match key_u8_exec(value) {
            Ok(Some(v)) => Ok(Some(Token::Opcode(Opcode::Key(v)))),
            Ok(None) => Ok(None),
            Err(e) => Err(e),
        }
    } else if eq_str(name, "lokey") {
        match key_u8_exec(value) {
            Ok(Some(v)) => Ok(Some(Token::Opcode(Opcode::Lokey(v)))),
            Ok(None) => Ok(None),
            Err(e) => Err(e),
        }
    } else if eq_str(name, "hikey") {
        match key_u8_exec(value) {
            Ok(Some(v)) => Ok(Some(Token::Opcode(Opcode::Hikey(v)))),
            Ok(None) => Ok(None),
            Err(e) => Err(e),
        }
    } else if eq_str(name, "pitch_keycenter") {
        match key_u8_exec(value) {
            Ok(Some(v)) => Ok(Some(Token::Opcode(Opcode::PitchKeycenter(v)))),
            Ok(None) => Ok(None),
            Err(e) => Err(e),
        }
    } else if eq_str(name, "lovel") {
        match ranged_u8_exec(value, 0, 127, LitKind::U8Lit) {
            Ok(Some(v)) => Ok(Some(Token::Opcode(Opcode::Lovel(v)))),
            Ok(None) => Ok(None),
            Err(e) => Err(e),
        }
    } else if eq_str(name, "hivel") {
        match ranged_u8_exec(value, 0, 127, LitKind::U8Lit) {
            Ok(Some(v)) => Ok(Some(Token::Opcode(Opcode::Hivel(v)))),
            Ok(None) => Ok(None),
            Err(e) => Err(e),
        }
    } else if eq_str(name, "seq_length") {
        match ranged_u8_exec(value, 1, 100, LitKind::U8Lit) {
            Ok(Some(v)) => Ok(Some(Token::Opcode(Opcode::SeqLength(v)))),
            Ok(None) => Ok(None),
            Err(e) => Err(e),
        }
    } else if eq_str(name, "seq_position") {
        match ranged_u8_exec(value, 1, 100, LitKind::U8Lit) {
            Ok(Some(v)) => Ok(Some(Token::Opcode(Opcode::SeqPosition(v)))),
            Ok(None) => Ok(None),
            Err(e) => Err(e),
        }
    } else if eq_str(name, "transpose") {
        match ranged_i8_exec(value, -127, 127, LitKind::I8Lit) {
            Ok(Some(v)) => Ok(Some(Token::Opcode(Opcode::Transpose(v)))),
            Ok(None) => Ok(None),
            Err(e) => Err(e),
        }
    } else if eq_str(name, "tune") {
        match ranged_i16_exec(value, -100, 100, LitKind::I16Lit) {
            Ok(Some(v)) => Ok(Some(Token::Opcode(Opcode::Tune(v)))),
            Ok(None) => Ok(None),
            Err(e) => Err(e),
        }
    } else if eq_str(name, "offset") {
        match plain_u32_exec(value, LitKind::U32Lit) {
            Ok(v) => Ok(Some(Token::Opcode(Opcode::Offset(v)))),
            Err(e) => Err(e),
        }
    } else if eq_str(name, "count") {
        match plain_u32_exec(value, LitKind::U32Lit) {
            Ok(v) => Ok(Some(Token::Opcode(Opcode::Count(v)))),
            Err(e) => Err(e),
        }
    } else if eq_str(name, "loop_mode") {
        if eq_str(value, "no_loop") {
            Ok(Some(Token::Opcode(Opcode::LoopMode(LoopModeKind::NoLoop))))
        } else if eq_str(value, "one_shot") {
            Ok(Some(Token::Opcode(Opcode::LoopMode(LoopModeKind::OneShot))))
        } else if eq_str(value, "loop_continuous") {
            Ok(Some(Token::Opcode(Opcode::LoopMode(LoopModeKind::LoopContinuous))))
        } else if eq_str(value, "loop_sustain") {
            Ok(Some(Token::Opcode(Opcode::LoopMode(LoopModeKind::LoopSustain))))
        } else {
            Ok(None)
        }
    } else if eq_str(name, "trigger") {
        if eq_str(value, "attack") {
            Ok(Some(Token::Opcode(Opcode::Trigger(TriggerKind::Attack))))
        } else if eq_str(value, "release") {
            Ok(Some(Token::Opcode(Opcode::Trigger(TriggerKind::Release))))
        } else if eq_str(value, "first") {
            Ok(Some(Token::Opcode(Opcode::Trigger(TriggerKind::First))))
        } else if eq_str(value, "legato") {
            Ok(Some(Token::Opcode(Opcode::Trigger(TriggerKind::Legato))))
        } else {
            Ok(None)
        }
    } else {
        Ok(None)
    }
}

/// Classifies one word.
fn classify_word(w: &Vec<char>) -> (r: Result<Option<Token>, SfzError>)
    ensures
        res_tok_matches(r, classify(w@)),
{
    if w.len() >= 2 && w[0] == '<' && w[w.len() - 1] == '>' {
        let name = copy_range(w, 1, w.len() - 1);
        if eq_str(&name, "control") {
            Ok(Some(Token::Header(HeaderKind::Control)))
        } else if eq_str(&name, "global") {
            Ok(Some(Token::Header(HeaderKind::Global)))
        } else if eq_str(&name, "master") {
            Ok(Some(Token::Header(HeaderKind::Master)))
        } else if eq_str(&name, "group") {
            Ok(Some(Token::Header(HeaderKind::Group)))
        } else if eq_str(&name, "region") {
            Ok(Some(Token::Header(HeaderKind::Region)))
        } else if eq_str(&name, "curve") {
            Ok(Some(Token::Header(HeaderKind::Curve)))
        } else if eq_str(&name, "effect") {
            Ok(Some(Token::Header(HeaderKind::Effect)))
        } else {
            Ok(None)
        }
    } else {
        match find_eq(w) {
            None => Ok(None),
            Some(p) => {
                let name = copy_range(w, 0, p);
                let value = copy_range(w, p + 1, w.len());
                proof {
                    assert(name@ =~= w@.take(eq_pos(w@)));
                    assert(value@ =~= w@.skip(eq_pos(w@) + 1));
                }
                opcode_word(&name, &value)
            },
        }
    }
}

/// Combines already-produced tokens with the outcome of the rest of the
/// text.
pub open spec fn tok_append(acc: Seq<TokV>, r: Result<Seq<TokV>, ErrV>) -> Result<
    Seq<TokV>,
    ErrV,
> {
    match r {
        Ok(ts) => Ok(acc + ts),
        Err(e) => Err(e),
    }
}

/// Tokenizes a whole source text.
pub fn tokenize(chars: &Vec<char>) -> (r: Result<Vec<Token>, SfzError>)
    ensures
        match r {
            Ok(ts) => spec_tokenize(chars@) == Ok::<Seq<TokV>, ErrV>(ts.deep_view()),
            Err(e) => spec_tokenize(chars@) == Err::<Seq<TokV>, ErrV>(e@),
        },
{
    let mut toks: Vec<Token> = Vec::new();
    let mut i: usize = 0;
    proof {
        assert(chars@.skip(0) =~= chars@);
        assert(toks.deep_view() =~= Seq::<TokV>::empty());
    }
    while i < chars.len()
        invariant
            i <= chars@.len(),
            spec_tokenize(chars@) == tok_append(toks.deep_view(), spec_tokenize(
                chars@.skip(i as int),
            )),
        decreases chars@.len() - i,
    {
        let ghost rem = chars@.skip(i as int);
        let ghost acc0 = toks.deep_view();
        let c = chars[i];
        proof {
            assert(rem[0] == chars@[i as int]);
            assert(rem.len() == chars@.len() - i);
        }
        if is_ws_exec(c) {
            proof {
                assert(rem.skip(1) =~= chars@.skip(i + 1));
            }
            i += 1;
        } else if c == '/' && i + 1 < chars.len() && chars[i + 1] == '/' {
            proof {
                assert(rem[1] == chars@[i + 1]);
            }
            let mut j: usize = i;
            while j < chars.len() && chars[j] != '\n'
                invariant
                    i <= j <= chars@.len(),
                    forall|m: int| i <= m < j ==> chars@[m] != '\n',
                decreases chars@.len() - j,
            {
                j += 1;
            }
            proof {
                assert(forall|m: int| 0 <= m < j - i ==> rem[m] == chars@[i + m]);
                lemma_line_len_at(rem, j - i);
            }
            if j < chars.len() {
                proof {
                    assert(rem[j - i] == chars@[j as int]);
                    assert(line_len(rem) == j - i + 1);
                    assert(rem.skip(line_len(rem)) =~= chars@.skip(j + 1));
                }
                i = j + 1;
            } else {
                proof {
                    assert(line_len(rem) == rem.len());
                    assert(rem.skip(line_len(rem)) =~= chars@.skip(chars@.len() as int));
                }
                i = j;
            }
        } else {
            let mut j: usize = i;
            while j < chars.len() && !is_ws_exec(chars[j])
                invariant
                    i <= j <= chars@.len(),
                    forall|m: int| i <= m < j ==> !is_ws_char(#[trigger] chars@[m]),
                decreases chars@.len() - j,
            {
                j += 1;
            }
            proof {
                assert(forall|m: int| 0 <= m < j - i ==> rem[m] == chars@[i + m]);
                if j < chars.len() {
                    assert(rem[j - i] == chars@[j as int]);
                }
                lemma_word_len_at(rem, j - i);
                assert(word_len(rem) == j - i);
            }
            let word = copy_range(chars, i, j);
            proof {
                assert(word@ =~= rem.take(j - i));
            }
            match classify_word(&word) {
                Err(e) => {
                    proof {
                        assert(spec_tokenize(rem) == Err::<Seq<TokV>, ErrV>(e@));
                    }
                    return Err(e);
                },
                Ok(None) => {
                    proof {
                        assert(rem.skip(word_len(rem)) =~= chars@.skip(j as int));
                    }
                    i = j;
                },
                Ok(Some(t)) => {
                    let ghost tv = t.deep_view();
                    toks.push(t);
                    proof {
                        assert(toks.deep_view() =~= acc0.push(tv));
                        assert(rem.skip(word_len(rem)) =~= chars@.skip(j as int));
                        match spec_tokenize(chars@.skip(j as int)) {
                            Ok(ts) => {
                                assert(acc0 + (seq![tv] + ts) =~= acc0.push(tv) + ts);
                            },
                            Err(_) => {},
                        }
                    }
                    i = j;
                },
            }
        }
    }
    proof {
        assert(chars@.skip(chars@.len() as int) =~= Seq::<char>::empty());
        assert(spec_tokenize(Seq::<char>::empty()) == Ok::<Seq<TokV>, ErrV>(Seq::empty()));
        assert(toks.deep_view() + Seq::<TokV>::empty() =~= toks.deep_view());
    }
    Ok(toks)
}

} // verus!
