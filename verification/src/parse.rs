//! Validated parsing of opcode values: decimal integer literals of the
//! various widths the format uses, and MIDI key names in International Pitch
//! Notation (sharp or flat spelling, case-insensitive).
//!
//! A string that is not syntactically a number of the requested width is a
//! fatal error: the `check_*` functions require syntactic validity, and the
//! tokenizer turns a violation into a hard parse failure.  A syntactically
//! valid number outside a requested `[min, max]` range is recoverable: the
//! `*_between` functions return `None` and the caller drops the opcode.

use vstd::prelude::*;

verus! {

// ---------------------------------------------------------------------------
// Decimal integer literals
// ---------------------------------------------------------------------------

/// Value of a decimal digit character, or -1 if `c` is not a digit.
pub open spec fn digit_val(c: char) -> int {
    if c == '0' {
        0
    } else if c == '1' {
        1
    } else if c == '2' {
        2
    } else if c == '3' {
        3
    } else if c == '4' {
        4
    } else if c == '5' {
        5
    } else if c == '6' {
        6
    } else if c == '7' {
        7
    } else if c == '8' {
        8
    } else if c == '9' {
        9
    } else {
        -1
    }
}

pub open spec fn is_digit_char(c: char) -> bool {
    digit_val(c) >= 0
}

/// A non-empty, all-digit character sequence.
pub open spec fn is_digits(s: Seq<char>) -> bool {
    s.len() > 0 && forall|i: int| 0 <= i < s.len() ==> is_digit_char(#[trigger] s[i])
}

/// The base-10 value of an all-digit sequence.
pub open spec fn digits_val(s: Seq<char>) -> int
    decreases s.len(),
{
    if s.len() == 0 {
        0
    } else {
        digits_val(s.drop_last()) * 10 + digit_val(s.last())
    }
}

/// The value of an optionally signed decimal literal, or `None` when the text
/// is not syntactically a decimal integer.  A leading `-` is admitted only
/// when `allow_neg` holds.
pub open spec fn int_lit(s: Seq<char>, allow_neg: bool) -> Option<int> {
    if s.len() > 0 && s[0] == '+' {
        if is_digits(s.skip(1)) {
            Some(digits_val(s.skip(1)))
        } else {
            None
        }
    } else if s.len() > 0 && s[0] == '-' {
        if allow_neg && is_digits(s.skip(1)) {
            Some(-digits_val(s.skip(1)))
        } else {
            None
        }
    } else {
        if is_digits(s) {
            Some(digits_val(s))
        } else {
            None
        }
    }
}

/// An unsigned literal of a given width: syntactically a number, and at most
/// `max`.  Overflowing the width is a syntax-level (fatal) failure, exactly
/// as an unparseable string is.
pub open spec fn unsigned_lit(s: Seq<char>, max: int) -> Option<int> {
    match int_lit(s, false) {
        Some(v) => if v <= max {
            Some(v)
        } else {
            None
        },
        None => None,
    }
}

/// A signed literal of a given width: syntactically a number within
/// `[min, max]` (the width's full range).
pub open spec fn signed_lit(s: Seq<char>, min: int, max: int) -> Option<int> {
    match int_lit(s, true) {
        Some(v) => if min <= v && v <= max {
            Some(v)
        } else {
            None
        },
        None => None,
    }
}

/// Exec mirror of `digit_val`.
fn digit_of(c: char) -> (r: Option<u64>)
    ensures
        match r {
            Some(n) => digit_val(c) == n,
            None => digit_val(c) < 0,
        },
{
    match c {
        '0' => Some(0),
        '1' => Some(1),
        '2' => Some(2),
        '3' => Some(3),
        '4' => Some(4),
        '5' => Some(5),
        '6' => Some(6),
        '7' => Some(7),
        '8' => Some(8),
        '9' => Some(9),
        _ => None,
    }
}

/// Scans `v[start..]` as a run of digits whose value is at most `max`.
fn scan_digits(v: &Vec<char>, start: usize, max: u64) -> (r: Option<u64>)
    requires
        start <= v@.len(),
        max <= 0xFFFF_FFFF,
    ensures
        match r {
            Some(n) => is_digits(v@.skip(start as int)) && digits_val(v@.skip(start as int)) == n
                && n <= max,
            None => !(is_digits(v@.skip(start as int)) && digits_val(v@.skip(start as int))
                <= max),
        },
{
    let ghost s = v@.skip(start as int);
    if start == v.len() {
        return None;
    }
    let mut i: usize = start;
    let mut acc: u64 = 0;
    let mut over: bool = false;
    while i < v.len()
        invariant
            start <= i <= v@.len(),
            start < v@.len(),
            max <= 0xFFFF_FFFF,
            s == v@.skip(start as int),
            forall|j: int| 0 <= j < i - start ==> is_digit_char(#[trigger] s[j]),
            !over ==> acc == digits_val(s.take(i - start)) && acc <= max,
            over ==> digits_val(s.take(i - start)) > max,
        decreases v@.len() - i,
    {
        let ghost pre = s.take(i - start);
        match digit_of(v[i]) {
            None => {
                proof {
                    assert(s[i - start] == v@[i as int]);
                    assert(!is_digit_char(s[i - start]));
                }
                return None;
            },
            Some(d) => {
                proof {
                    assert(s.take(i + 1 - start).drop_last() =~= pre);
                    assert(s.take(i + 1 - start).last() == v@[i as int]);
                    assert(digits_val(s.take(i + 1 - start)) == digits_val(pre) * 10 + d);
                }
                if !over {
                    let cand: u64 = acc * 10 + d;
                    if cand > max {
                        over = true;
                        proof {
                            assert(digits_val(s.take(i + 1 - start)) > max);
                        }
                    } else {
                        acc = cand;
                    }
                } else {
                    proof {
                        assert(digits_val(pre) * 10 >= digits_val(pre));
                        assert(digits_val(s.take(i + 1 - start)) > max);
                    }
                }
            },
        }
        i += 1;
    }
    proof {
        assert(s.take(i - start) =~= s);
        assert(is_digits(s));
    }
    if over {
        None
    } else {
        Some(acc)
    }
}

/// Parses an optionally `+`-signed unsigned decimal literal of value at most
/// `max`.
pub(crate) fn parse_unsigned_chars(v: &Vec<char>, max: u64) -> (r: Option<u64>)
    requires
        max <= 0xFFFF_FFFF,
    ensures
        match r {
            Some(n) => unsigned_lit(v@, max as int) == Some(n as int),
            None => unsigned_lit(v@, max as int) is None,
        },
{
    if v.len() > 0 && v[0] == '+' {
        scan_digits(v, 1, max)
    } else {
        let r = scan_digits(v, 0, max);
        proof {
            assert(v@.skip(0) =~= v@);
        }
        r
    }
}

/// Parses an optionally signed decimal literal within `[min, max]`.
pub(crate) fn parse_signed_chars(v: &Vec<char>, min: i64, max: i64) -> (r: Option<i64>)
    requires
        -0x8000 <= min <= 0,
        0 <= max <= 0x7FFF,
    ensures
        match r {
            Some(n) => signed_lit(v@, min as int, max as int) == Some(n as int),
            None => signed_lit(v@, min as int, max as int) is None,
        },
{
    if v.len() > 0 && v[0] == '-' {
        let bound: u64 = (-min) as u64;
        match scan_digits(v, 1, bound) {
            Some(mag) => Some(-(mag as i64)),
            None => None,
        }
    } else if v.len() > 0 && v[0] == '+' {
        match scan_digits(v, 1, max as u64) {
            Some(n) => Some(n as i64),
            None => None,
        }
    } else {
        let ghost whole = v@;
        let r = scan_digits(v, 0, max as u64);
        proof {
            assert(v@.skip(0) =~= v@);
        }
        match r {
            Some(n) => Some(n as i64),
            None => None,
        }
    }
}

/// Collects the characters of a string slice.
pub(crate) fn str_to_chars(s: &str) -> (v: Vec<char>)
    ensures
        v@ == s@,
{
    let n = s.unicode_len();
    let mut v: Vec<char> = Vec::new();
    let mut i: usize = 0;
    while i < n
        invariant
            i <= n,
            n == s@.len(),
            v@ == s@.take(i as int),
        decreases n - i,
    {
        let c = s.get_char(i);
        v.push(c);
        proof {
            assert(v@ =~= s@.take(i + 1));
        }
        i += 1;
    }
    proof {
        assert(v@ =~= s@);
    }
    v
}

// ---------------------------------------------------------------------------
// Width-specific entry points
// ---------------------------------------------------------------------------
//
// The plain `check_*` functions demand a syntactically valid literal of the
// width; the `check_*_between` variants additionally compare against a range,
// returning `None` (an absent value) when the literal falls outside it.

/// Parses `value` as a `u8`; the text must be a valid `u8` literal.
pub fn check_u8(value: &str) -> (num: u8)
    requires
        unsigned_lit(value@, u8::MAX as int) is Some,
    ensures
        unsigned_lit(value@, u8::MAX as int) == Some(num as int),
{
    let chars = str_to_chars(value);
    match parse_unsigned_chars(&chars, 255) {
        Some(n) => n as u8,
        None => vstd::pervasive::unreached(),
    }
}

/// Parses `value` as a `u8` and checks it lies within `[min, max]`.
pub fn check_u8_between(value: &str, min: u8, max: u8) -> (r: Option<u8>)
    requires
        unsigned_lit(value@, u8::MAX as int) is Some,
    ensures
        ({
            let v = unsigned_lit(value@, u8::MAX as int).unwrap();
            r == if min <= v && v <= max {
                Some(v as u8)
            } else {
                None::<u8>
            }
        }),
{
    let num = check_u8(value);
    if num >= min && num <= max {
        Some(num)
    } else {
        None
    }
}

/// Parses `value` as an `i8`; the text must be a valid `i8` literal.
pub fn check_i8(value: &str) -> (num: i8)
    requires
        signed_lit(value@, i8::MIN as int, i8::MAX as int) is Some,
    ensures
        signed_lit(value@, i8::MIN as int, i8::MAX as int) == Some(num as int),
{
    let chars = str_to_chars(value);
    match parse_signed_chars(&chars, -128, 127) {
        Some(n) => n as i8,
        None => vstd::pervasive::unreached(),
    }
}

/// Parses `value` as an `i8` and checks it lies within `[min, max]`.
pub fn check_i8_between(value: &str, min: i8, max: i8) -> (r: Option<i8>)
    requires
        signed_lit(value@, i8::MIN as int, i8::MAX as int) is Some,
    ensures
        ({
            let v = signed_lit(value@, i8::MIN as int, i8::MAX as int).unwrap();
            r == if min <= v && v <= max {
                Some(v as i8)
            } else {
                None::<i8>
            }
        }),
{
    let num = check_i8(value);
    if num >= min && num <= max {
        Some(num)
    } else {
        None
    }
}

/// Parses `value` as an `i16`; the text must be a valid `i16` literal.
pub fn check_i16(value: &str) -> (num: i16)
    requires
        signed_lit(value@, i16::MIN as int, i16::MAX as int) is Some,
    ensures
        signed_lit(value@, i16::MIN as int, i16::MAX as int) == Some(num as int),
{
    let chars = str_to_chars(value);
    match parse_signed_chars(&chars, -32768, 32767) {
        Some(n) => n as i16,
        None => vstd::pervasive::unreached(),
    }
}

/// Parses `value` as an `i16` and checks it lies within `[min, max]`.
pub fn check_i16_between(value: &str, min: i16, max: i16) -> (r: Option<i16>)
    requires
        signed_lit(value@, i16::MIN as int, i16::MAX as int) is Some,
    ensures
        ({
            let v = signed_lit(value@, i16::MIN as int, i16::MAX as int).unwrap();
            r == if min <= v && v <= max {
                Some(v as i16)
            } else {
                None::<i16>
            }
        }),
{
    let num = check_i16(value);
    if num >= min && num <= max {
        Some(num)
    } else {
        None
    }
}

/// Parses `value` as a `u16`; the text must be a valid `u16` literal.
pub fn check_u16(value: &str) -> (num: u16)
    requires
        unsigned_lit(value@, u16::MAX as int) is Some,
    ensures
        unsigned_lit(value@, u16::MAX as int) == Some(num as int),
{
    let chars = str_to_chars(value);
    match parse_unsigned_chars(&chars, 0xFFFF) {
        Some(n) => n as u16,
        None => vstd::pervasive::unreached(),
    }
}

/// Parses `value` as a `u16` and checks it lies within `[min, max]`.
pub fn check_u16_between(value: &str, min: u16, max: u16) -> (r: Option<u16>)
    requires
        unsigned_lit(value@, u16::MAX as int) is Some,
    ensures
        ({
            let v = unsigned_lit(value@, u16::MAX as int).unwrap();
            r == if min <= v && v <= max {
                Some(v as u16)
            } else {
                None::<u16>
            }
        }),
{
    let num = check_u16(value);
    if num >= min && num <= max {
        Some(num)
    } else {
        None
    }
}

/// Parses `value` as a `u32`; the text must be a valid `u32` literal.
pub fn check_u32(value: &str) -> (num: u32)
    requires
        unsigned_lit(value@, u32::MAX as int) is Some,
    ensures
        unsigned_lit(value@, u32::MAX as int) == Some(num as int),
{
    let chars = str_to_chars(value);
    match parse_unsigned_chars(&chars, 0xFFFF_FFFF) {
        Some(n) => n as u32,
        None => vstd::pervasive::unreached(),
    }
}

/// Parses `value` as a `u32` and checks it lies within `[min, max]`.
pub fn check_u32_between(value: &str, min: u32, max: u32) -> (r: Option<u32>)
    requires
        unsigned_lit(value@, u32::MAX as int) is Some,
    ensures
        ({
            let v = unsigned_lit(value@, u32::MAX as int).unwrap();
            r == if min <= v && v <= max {
                Some(v as u32)
            } else {
                None::<u32>
            }
        }),
{
    let num = check_u32(value);
    if num >= min && num <= max {
        Some(num)
    } else {
        None
    }
}

// ---------------------------------------------------------------------------
// MIDI key names
// ---------------------------------------------------------------------------
//
// Key numbers run over the MIDI range extended one octave below: -1 to 127.
// For key number `k`, the pitch class is `(k + 4) % 12` and the octave is
// `(k + 1) / 12 - 1`; the name is the pitch class's sharp or flat spelling
// followed by the octave.  The name-to-number table holds both spellings of
// every key in that range, and lookup is case-insensitive.

/// Sharp spelling of a pitch class (`#` accidentals).
pub open spec fn sharp_spelling(pc: int) -> Seq<char> {
    if pc == 0 {
        seq!['a']
    } else if pc == 1 {
        seq!['a', '#']
    } else if pc == 2 {
        seq!['b']
    } else if pc == 3 {
        seq!['c']
    } else if pc == 4 {
        seq!['c', '#']
    } else if pc == 5 {
        seq!['d']
    } else if pc == 6 {
        seq!['d', '#']
    } else if pc == 7 {
        seq!['e']
    } else if pc == 8 {
        seq!['f']
    } else if pc == 9 {
        seq!['f', '#']
    } else if pc == 10 {
        seq!['g']
    } else {
        seq!['g', '#']
    }
}

/// Flat spelling of a pitch class (`b` accidentals; naturals coincide with
/// the sharp spelling).
pub open spec fn flat_spelling(pc: int) -> Seq<char> {
    if pc == 0 {
        seq!['a']
    } else if pc == 1 {
        seq!['b', 'b']
    } else if pc == 2 {
        seq!['b']
    } else if pc == 3 {
        seq!['c']
    } else if pc == 4 {
        seq!['d', 'b']
    } else if pc == 5 {
        seq!['d']
    } else if pc == 6 {
        seq!['e', 'b']
    } else if pc == 7 {
        seq!['e']
    } else if pc == 8 {
        seq!['f']
    } else if pc == 9 {
        seq!['g', 'b']
    } else if pc == 10 {
        seq!['g']
    } else {
        seq!['a', 'b']
    }
}

pub open spec fn pitch_class(k: int) -> int {
    (k + 4) % 12
}

pub open spec fn octave_of(k: int) -> int {
    (k + 1) / 12 - 1
}

/// Decimal rendering of an octave in -1 ..= 9.
pub open spec fn octave_str(o: int) -> Seq<char> {
    if o == -1 {
        seq!['-', '1']
    } else if o == 0 {
        seq!['0']
    } else if o == 1 {
        seq!['1']
    } else if o == 2 {
        seq!['2']
    } else if o == 3 {
        seq!['3']
    } else if o == 4 {
        seq!['4']
    } else if o == 5 {
        seq!['5']
    } else if o == 6 {
        seq!['6']
    } else if o == 7 {
        seq!['7']
    } else if o == 8 {
        seq!['8']
    } else {
        seq!['9']
    }
}

/// Sharp-spelled name of key `k`.
pub open spec fn sharp_name(k: int) -> Seq<char> {
    sharp_spelling(pitch_class(k)) + octave_str(octave_of(k))
}

/// Flat-spelled name of key `k`.
pub open spec fn flat_name(k: int) -> Seq<char> {
    flat_spelling(pitch_class(k)) + octave_str(octave_of(k))
}

/// The name table entries for keys -1 through `k`, in construction order:
/// sharp spelling first, then flat, for each key in turn.
pub open spec fn key_table_thru(k: int) -> Seq<(Seq<char>, int)>
    decreases k + 2,
{
    if k < -1 {
        Seq::empty()
    } else {
        key_table_thru(k - 1) + seq![(sharp_name(k), k), (flat_name(k), k)]
    }
}

/// The full key-name table, keys -1 ..= 127, both spellings each.
pub open spec fn key_table() -> Seq<(Seq<char>, int)> {
    key_table_thru(127)
}

/// First-match lookup in a name table.
pub open spec fn table_lookup(t: Seq<(Seq<char>, int)>, name: Seq<char>) -> Option<int>
    decreases t.len(),
{
    if t.len() == 0 {
        None
    } else if t[0].0 == name {
        Some(t[0].1)
    } else {
        table_lookup(t.skip(1), name)
    }
}

/// Lookup of a (lowercase) name in the full table.
pub open spec fn key_lookup(name: Seq<char>) -> Option<int> {
    table_lookup(key_table(), name)
}

/// ASCII lowercasing of one character.
pub open spec fn lower_char(c: char) -> char {
    if c == 'A' {
        'a'
    } else if c == 'B' {
        'b'
    } else if c == 'C' {
        'c'
    } else if c == 'D' {
        'd'
    } else if c == 'E' {
        'e'
    } else if c == 'F' {
        'f'
    } else if c == 'G' {
        'g'
    } else if c == 'H' {
        'h'
    } else if c == 'I' {
        'i'
    } else if c == 'J' {
        'j'
    } else if c == 'K' {
        'k'
    } else if c == 'L' {
        'l'
    } else if c == 'M' {
        'm'
    } else if c == 'N' {
        'n'
    } else if c == 'O' {
        'o'
    } else if c == 'P' {
        'p'
    } else if c == 'Q' {
        'q'
    } else if c == 'R' {
        'r'
    } else if c == 'S' {
        's'
    } else if c == 'T' {
        't'
    } else if c == 'U' {
        'u'
    } else if c == 'V' {
        'v'
    } else if c == 'W' {
        'w'
    } else if c == 'X' {
        'x'
    } else if c == 'Y' {
        'y'
    } else if c == 'Z' {
        'z'
    } else {
        c
    }
}

pub open spec fn to_lower(s: Seq<char>) -> Seq<char> {
    s.map(|i: int, c: char| lower_char(c))
}

// ---------------------------------------------------------------------------
// Decoding a key name back to its number
// ---------------------------------------------------------------------------
//
// The inverse reading of a name: letter (with optional accidental) to pitch
// class, octave digits to octave, and `k = 12 * (o + 1) + (pc + 9) % 12 - 1`.
// It is the yardstick against which the table is proved: every generated name
// decodes to its own key, which pins down first-match lookup in the table.

spec fn letter_pc(c: char) -> int {
    if c == 'a' {
        0
    } else if c == 'b' {
        2
    } else if c == 'c' {
        3
    } else if c == 'd' {
        5
    } else if c == 'e' {
        7
    } else if c == 'f' {
        8
    } else if c == 'g' {
        10
    } else {
        -1
    }
}

spec fn sharp_pc(c: char) -> int {
    if c == 'a' {
        1
    } else if c == 'c' {
        4
    } else if c == 'd' {
        6
    } else if c == 'f' {
        9
    } else if c == 'g' {
        11
    } else {
        -1
    }
}

spec fn flat_pc(c: char) -> int {
    if c == 'a' {
        11
    } else if c == 'b' {
        1
    } else if c == 'd' {
        4
    } else if c == 'e' {
        6
    } else if c == 'g' {
        9
    } else {
        -1
    }
}

spec fn decode_octave(s: Seq<char>) -> Option<int> {
    if s.len() == 1 && is_digit_char(s[0]) {
        Some(digit_val(s[0]))
    } else if s.len() == 2 && s[0] == '-' && s[1] == '1' {
        Some(-1)
    } else {
        None
    }
}

spec fn key_from(pc: int, o: int) -> int {
    12 * (o + 1) + (pc + 9) % 12 - 1
}

spec fn code_from(pc: int, oo: Option<int>) -> Option<int> {
    match oo {
        Some(o) => if key_from(pc, o) <= 127 {
            Some(key_from(pc, o))
        } else {
            None
        },
        None => None,
    }
}

spec fn key_name_code(s: Seq<char>) -> Option<int> {
    if s.len() >= 2 && s[1] == '#' {
        if sharp_pc(s[0]) >= 0 {
            code_from(sharp_pc(s[0]), decode_octave(s.skip(2)))
        } else {
            None
        }
    } else if s.len() >= 2 && s[1] == 'b' {
        if flat_pc(s[0]) >= 0 {
            code_from(flat_pc(s[0]), decode_octave(s.skip(2)))
        } else {
            None
        }
    } else if s.len() >= 1 && letter_pc(s[0]) >= 0 {
        code_from(letter_pc(s[0]), decode_octave(s.skip(1)))
    } else {
        None
    }
}

/// Pitch class and octave of a key in range are in range, and reassembling
/// them recovers the key.
proof fn lemma_pitch_octave(k: int)
    requires
        -1 <= k <= 127,
    ensures
        0 <= pitch_class(k) < 12,
        -1 <= octave_of(k) <= 9,
        key_from(pitch_class(k), octave_of(k)) == k,
{
    vstd::arithmetic::div_mod::lemma_mod_bound(k + 4, 12);
    vstd::arithmetic::div_mod::lemma_mod_bound(k + 1, 12);
    vstd::arithmetic::div_mod::lemma_fundamental_div_mod(k + 1, 12);
    vstd::arithmetic::div_mod::lemma_add_mod_noop_right(9, k + 4, 12);
    vstd::arithmetic::div_mod::lemma_mod_add_multiples_vanish(k + 1, 12);
    assert((pitch_class(k) + 9) % 12 == (k + 1) % 12);
}

/// The octave part starts with `-` or a digit and decodes to its octave.
proof fn lemma_octave_decodes(o: int)
    requires
        -1 <= o <= 9,
    ensures
        octave_str(o).len() >= 1,
        octave_str(o)[0] == '-' || is_digit_char(octave_str(o)[0]),
        octave_str(o)[0] != '#' && octave_str(o)[0] != 'b',
        decode_octave(octave_str(o)) == Some(o),
{
}

/// A two-character accidental spelling followed by an octave decodes through
/// the accidental branch.
proof fn lemma_accidental_decode(c0: char, c1: char, pc: int, o: int, k: int)
    requires
        -1 <= o <= 9,
        c1 == '#' ==> sharp_pc(c0) == pc,
        c1 == 'b' ==> flat_pc(c0) == pc,
        c1 == '#' || c1 == 'b',
        pc >= 0,
        key_from(pc, o) == k,
        k <= 127,
    ensures
        key_name_code(seq![c0, c1] + octave_str(o)) == Some(k),
{
    lemma_octave_decodes(o);
    let s = seq![c0, c1] + octave_str(o);
    assert(s.len() >= 2 && s[0] == c0 && s[1] == c1);
    assert(s.skip(2) =~= octave_str(o));
}

/// A natural (single-letter) spelling followed by an octave decodes through
/// the letter branch.
proof fn lemma_natural_decode(c0: char, pc: int, o: int, k: int)
    requires
        -1 <= o <= 9,
        letter_pc(c0) == pc,
        pc >= 0,
        key_from(pc, o) == k,
        k <= 127,
    ensures
        key_name_code(seq![c0] + octave_str(o)) == Some(k),
{
    lemma_octave_decodes(o);
    let s = seq![c0] + octave_str(o);
    assert(s.len() >= 2 && s[0] == c0 && s[1] == octave_str(o)[0]);
    assert(s[1] != '#' && s[1] != 'b');
    assert(s.skip(1) =~= octave_str(o));
}

/// Every generated name decodes to its own key.
proof fn lemma_name_decodes(k: int)
    requires
        -1 <= k <= 127,
    ensures
        key_name_code(sharp_name(k)) == Some(k),
        key_name_code(flat_name(k)) == Some(k),
{
    lemma_pitch_octave(k);
    lemma_sharp_spelling_decodes(pitch_class(k), octave_of(k), k);
    lemma_flat_spelling_decodes(pitch_class(k), octave_of(k), k);
}

/// The sharp spelling of pitch class `pc` at octave `o` decodes to the key
/// it was generated from.
#[verifier::spinoff_prover]
#[verifier::rlimit(100)]
proof fn lemma_sharp_spelling_decodes(pc: int, o: int, k: int)
    requires
        0 <= pc < 12,
        -1 <= o <= 9,
        key_from(pc, o) == k,
        k <= 127,
    ensures
        key_name_code(sharp_spelling(pc) + octave_str(o)) == Some(k),
{
    if pc == 0 {
        lemma_natural_decode('a', 0, o, k);
    } else if pc == 1 {
        lemma_accidental_decode('a', '#', 1, o, k);
    } else if pc == 2 {
        lemma_natural_decode('b', 2, o, k);
    } else if pc == 3 {
        lemma_natural_decode('c', 3, o, k);
    } else if pc == 4 {
        lemma_accidental_decode('c', '#', 4, o, k);
    } else if pc == 5 {
        lemma_natural_decode('d', 5, o, k);
    } else if pc == 6 {
        lemma_accidental_decode('d', '#', 6, o, k);
    } else if pc == 7 {
        lemma_natural_decode('e', 7, o, k);
    } else if pc == 8 {
        lemma_natural_decode('f', 8, o, k);
    } else if pc == 9 {
        lemma_accidental_decode('f', '#', 9, o, k);
    } else if pc == 10 {
        lemma_natural_decode('g', 10, o, k);
    } else {
        lemma_accidental_decode('g', '#', 11, o, k);
    }
}

/// The flat spelling of pitch class `pc` at octave `o` decodes to the key it
/// was generated from.
#[verifier::spinoff_prover]
#[verifier::rlimit(100)]
proof fn lemma_flat_spelling_decodes(pc: int, o: int, k: int)
    requires
        0 <= pc < 12,
        -1 <= o <= 9,
        key_from(pc, o) == k,
        k <= 127,
    ensures
        key_name_code(flat_spelling(pc) + octave_str(o)) == Some(k),
{
    if pc == 0 {
        lemma_natural_decode('a', 0, o, k);
    } else if pc == 1 {
        lemma_accidental_decode('b', 'b', 1, o, k);
    } else if pc == 2 {
        lemma_natural_decode('b', 2, o, k);
    } else if pc == 3 {
        lemma_natural_decode('c', 3, o, k);
    } else if pc == 4 {
        lemma_accidental_decode('d', 'b', 4, o, k);
    } else if pc == 5 {
        lemma_natural_decode('d', 5, o, k);
    } else if pc == 6 {
        lemma_accidental_decode('e', 'b', 6, o, k);
    } else if pc == 7 {
        lemma_natural_decode('e', 7, o, k);
    } else if pc == 8 {
        lemma_natural_decode('f', 8, o, k);
    } else if pc == 9 {
        lemma_accidental_decode('g', 'b', 9, o, k);
    } else if pc == 10 {
        lemma_natural_decode('g', 10, o, k);
    } else {
        lemma_accidental_decode('a', 'b', 11, o, k);
    }
}

/// First-match lookup distributes over concatenation.
proof fn lemma_lookup_append(a: Seq<(Seq<char>, int)>, b: Seq<(Seq<char>, int)>, name: Seq<char>)
    ensures
        table_lookup(a + b, name) == match table_lookup(a, name) {
            Some(v) => Some(v),
            None => table_lookup(b, name),
        },
    decreases a.len(),
{
    if a.len() == 0 {
        assert(a + b =~= b);
    } else {
        assert((a + b).len() > 0);
        assert((a + b)[0] == a[0]);
        assert((a + b).skip(1) =~= a.skip(1) + b);
        lemma_lookup_append(a.skip(1), b, name);
    }
}

/// Every value the table holds is a key in -1 ..= `m`.
pub(crate) proof fn lemma_table_values(m: int, name: Seq<char>)
    requires
        -1 <= m <= 127,
    ensures
        match table_lookup(key_table_thru(m), name) {
            Some(v) => -1 <= v <= m,
            None => true,
        },
    decreases m + 2,
{
    let pair = seq![(sharp_name(m), m), (flat_name(m), m)];
    if m == -1 {
        assert(key_table_thru(-2) =~= Seq::<(Seq<char>, int)>::empty());
    } else {
        lemma_table_values(m - 1, name);
    }
    assert(key_table_thru(m) == key_table_thru(m - 1) + pair);
    lemma_lookup_append(key_table_thru(m - 1), pair, name);
    lemma_lookup_pair(sharp_name(m), flat_name(m), m, name);
}

/// Lookup in a two-entry table for one key.
proof fn lemma_lookup_pair(sn: Seq<char>, fl: Seq<char>, m: int, name: Seq<char>)
    ensures
        table_lookup(seq![(sn, m), (fl, m)], name) == if sn == name || fl == name {
            Some(m)
        } else {
            None::<int>
        },
{
    reveal_with_fuel(table_lookup, 3);
    let pair = seq![(sn, m), (fl, m)];
    assert(pair[0] == (sn, m));
    assert(pair[1] == (fl, m));
    assert(pair.skip(1) =~= seq![(fl, m)]);
    assert(seq![(fl, m)][0] == (fl, m));
    assert(seq![(fl, m)].skip(1) =~= Seq::<(Seq<char>, int)>::empty());
}

/// No entry for a key below `k` carries one of `k`'s names.
#[verifier::rlimit(100)]
proof fn lemma_thru_misses(m: int, k: int, s: Seq<char>)
    requires
        -2 <= m < k <= 127,
        s == sharp_name(k) || s == flat_name(k),
    ensures
        table_lookup(key_table_thru(m), s) is None,
    decreases m + 2,
{
    if m >= -1 {
        lemma_thru_misses(m - 1, k, s);
        lemma_name_decodes(k);
        lemma_name_decodes(m);
        let pair = seq![(sharp_name(m), m), (flat_name(m), m)];
        assert(key_table_thru(m) == key_table_thru(m - 1) + pair);
        lemma_lookup_append(key_table_thru(m - 1), pair, s);
        assert(sharp_name(m) != s && flat_name(m) != s) by {
            assert(key_name_code(s) == Some(k));
        }
        lemma_lookup_pair(sharp_name(m), flat_name(m), m, s);
    } else {
        assert(key_table_thru(m) =~= Seq::<(Seq<char>, int)>::empty());
    }
}

/// Looking a generated name up in the table built through `m >= k` finds `k`.
proof fn lemma_thru_hits(m: int, k: int, s: Seq<char>)
    requires
        -1 <= k <= m <= 127,
        s == sharp_name(k) || s == flat_name(k),
    ensures
        table_lookup(key_table_thru(m), s) == Some(k),
    decreases m + 2,
{
    let pair = seq![(sharp_name(m), m), (flat_name(m), m)];
    assert(key_table_thru(m) == key_table_thru(m - 1) + pair);
    lemma_lookup_append(key_table_thru(m - 1), pair, s);
    lemma_lookup_pair(sharp_name(m), flat_name(m), m, s);
    if m == k {
        lemma_thru_misses(m - 1, k, s);
    } else {
        lemma_thru_hits(m - 1, k, s);
    }
}

// ---------------------------------------------------------------------------
// The executable table
// ---------------------------------------------------------------------------

/// One name-to-key entry of the executable table.
pub struct KeyEntry {
    pub name: Vec<char>,
    pub key: i8,
}

/// Abstraction of an executable table.
pub open spec fn entries_view(s: Seq<KeyEntry>) -> Seq<(Seq<char>, int)> {
    s.map(|i: int, e: KeyEntry| (e.name@, e.key as int))
}

/// Builds the spelling part of key `k`'s name.
fn spelling_chars(pc: i32, sharp: bool) -> (v: Vec<char>)
    requires
        0 <= pc < 12,
    ensures
        v@ == if sharp {
            sharp_spelling(pc as int)
        } else {
            flat_spelling(pc as int)
        },
{
    let mut v: Vec<char> = Vec::new();
    if pc == 0 {
        v.push('a');
    } else if pc == 1 {
        if sharp {
            v.push('a');
            v.push('#');
        } else {
            v.push('b');
            v.push('b');
        }
    } else if pc == 2 {
        v.push('b');
    } else if pc == 3 {
        v.push('c');
    } else if pc == 4 {
        if sharp {
            v.push('c');
            v.push('#');
        } else {
            v.push('d');
            v.push('b');
        }
    } else if pc == 5 {
        v.push('d');
    } else if pc == 6 {
        if sharp {
            v.push('d');
            v.push('#');
        } else {
            v.push('e');
            v.push('b');
        }
    } else if pc == 7 {
        v.push('e');
    } else if pc == 8 {
        v.push('f');
    } else if pc == 9 {
        if sharp {
            v.push('f');
            v.push('#');
        } else {
            v.push('g');
            v.push('b');
        }
    } else if pc == 10 {
        v.push('g');
    } else {
        if sharp {
            v.push('g');
            v.push('#');
        } else {
            v.push('a');
            v.push('b');
        }
    }
    proof {
        if sharp {
            assert(v@ =~= sharp_spelling(pc as int));
        } else {
            assert(v@ =~= flat_spelling(pc as int));
        }
    }
    v
}

/// Builds the octave part of a key name.
fn octave_chars(o: i32) -> (v: Vec<char>)
    requires
        -1 <= o <= 9,
    ensures
        v@ == octave_str(o as int),
{
    let mut v: Vec<char> = Vec::new();
    if o == -1 {
        v.push('-');
        v.push('1');
    } else if o == 0 {
        v.push('0');
    } else if o == 1 {
        v.push('1');
    } else if o == 2 {
        v.push('2');
    } else if o == 3 {
        v.push('3');
    } else if o == 4 {
        v.push('4');
    } else if o == 5 {
        v.push('5');
    } else if o == 6 {
        v.push('6');
    } else if o == 7 {
        v.push('7');
    } else {
        v.push('8');
        if o == 9 {
            let _ = v.pop();
            v.push('9');
        }
    }
    proof {
        assert(v@ =~= octave_str(o as int));
    }
    v
}

/// Builds the sharp- or flat-spelled name of key `k`.
fn key_name_chars(k: i32, sharp: bool) -> (v: Vec<char>)
    requires
        -1 <= k <= 127,
    ensures
        v@ == if sharp {
            sharp_name(k as int)
        } else {
            flat_name(k as int)
        },
{
    proof {
        lemma_pitch_octave(k as int);
    }
    let pc = (k + 4) % 12;
    let o = (k + 1) / 12 - 1;
    let mut v = spelling_chars(pc, sharp);
    let mut oc = octave_chars(o);
    v.append(&mut oc);
    v
}

/// Builds the name-to-key table: for each key from -1 through 127, the
/// sharp-spelled then the flat-spelled name, in that order.
pub fn build_key_name_map() -> (t: Vec<KeyEntry>)
    ensures
        entries_view(t@) == key_table(),
{
    let mut t: Vec<KeyEntry> = Vec::new();
    let mut k: i32 = -1;
    proof {
        assert(entries_view(t@) =~= key_table_thru(-2));
    }
    while k <= 127
        invariant
            -1 <= k <= 128,
            entries_view(t@) == key_table_thru(k - 1),
        decreases 128 - k,
    {
        let sn = key_name_chars(k, true);
        t.push(KeyEntry { name: sn, key: k as i8 });
        let fl = key_name_chars(k, false);
        t.push(KeyEntry { name: fl, key: k as i8 });
        proof {
            let tv = entries_view(t@);
            let target = key_table_thru(k as int);
            assert(target == key_table_thru(k - 1) + seq![
                (sharp_name(k as int), k as int),
                (flat_name(k as int), k as int),
            ]);
            assert forall|j: int| 0 <= j < tv.len() implies tv[j] == target[j] by {
                if j < tv.len() - 2 {
                    assert(entries_view(t@.take(t@.len() - 2))[j] == tv[j]);
                }
            }
            assert(tv =~= target);
        }
        k = k + 1;
    }
    t
}

/// Character-sequence equality.
fn chars_eq(a: &Vec<char>, b: &Vec<char>) -> (r: bool)
    ensures
        r == (a@ == b@),
{
    if a.len() != b.len() {
        return false;
    }
    let mut i: usize = 0;
    while i < a.len()
        invariant
            i <= a@.len(),
            a@.len() == b@.len(),
            forall|j: int| 0 <= j < i ==> a@[j] == b@[j],
        decreases a@.len() - i,
    {
        if a[i] != b[i] {
            return false;
        }
        i += 1;
    }
    proof {
        assert(a@ =~= b@);
    }
    true
}

/// First-match scan of an executable table.
pub(crate) fn lookup_key_table(t: &Vec<KeyEntry>, name: &Vec<char>) -> (r: Option<i8>)
    ensures
        match r {
            Some(v) => table_lookup(entries_view(t@), name@) == Some(v as int),
            None => table_lookup(entries_view(t@), name@) is None,
        },
{
    let mut i: usize = 0;
    proof {
        assert(entries_view(t@).skip(0) =~= entries_view(t@));
    }
    while i < t.len()
        invariant
            i <= t@.len(),
            table_lookup(entries_view(t@), name@) == table_lookup(
                entries_view(t@).skip(i as int),
                name@,
            ),
        decreases t@.len() - i,
    {
        let ghost before = entries_view(t@).skip(i as int);
        proof {
            assert(before[0] == entries_view(t@)[i as int]);
            assert(before.skip(1) =~= entries_view(t@).skip(i + 1));
        }
        if chars_eq(&t[i].name, name) {
            return Some(t[i].key);
        }
        i += 1;
    }
    None
}

/// Lowercases a character.
fn lower_char_exec(c: char) -> (r: char)
    ensures
        r == lower_char(c),
{
    match c {
        'A' => 'a',
        'B' => 'b',
        'C' => 'c',
        'D' => 'd',
        'E' => 'e',
        'F' => 'f',
        'G' => 'g',
        'H' => 'h',
        'I' => 'i',
        'J' => 'j',
        'K' => 'k',
        'L' => 'l',
        'M' => 'm',
        'N' => 'n',
        'O' => 'o',
        'P' => 'p',
        'Q' => 'q',
        'R' => 'r',
        'S' => 's',
        'T' => 't',
        'U' => 'u',
        'V' => 'v',
        'W' => 'w',
        'X' => 'x',
        'Y' => 'y',
        'Z' => 'z',
        _ => c,
    }
}

/// Lowercases a character sequence.
pub(crate) fn lower_chars(v: &Vec<char>) -> (r: Vec<char>)
    ensures
        r@ == to_lower(v@),
{
    let mut r: Vec<char> = Vec::new();
    let mut i: usize = 0;
    while i < v.len()
        invariant
            i <= v@.len(),
            r@ == to_lower(v@).take(i as int),
        decreases v@.len() - i,
    {
        let c = lower_char_exec(v[i]);
        r.push(c);
        proof {
            assert(r@ =~= to_lower(v@).take(i + 1));
        }
        i += 1;
    }
    proof {
        assert(r@ =~= to_lower(v@));
    }
    r
}

// ---------------------------------------------------------------------------
// Key accessors
// ---------------------------------------------------------------------------

/// The inputs `check_u8_key` accepts without a fatal literal error: a known
/// key name (case-insensitive) or a valid `u8` literal.
pub open spec fn u8_key_valid(s: Seq<char>) -> bool {
    key_lookup(to_lower(s)) is Some || unsigned_lit(s, u8::MAX as int) is Some
}

/// What `check_u8_key` returns on an accepted input: the named key when it is
/// unsigned-representable, else the numeric value when it is within 0 ..= 127;
/// out-of-range values resolve to an absent result.
pub open spec fn u8_key_value(s: Seq<char>) -> Option<int> {
    match key_lookup(to_lower(s)) {
        Some(k) => if k < 0 {
            None
        } else {
            Some(k)
        },
        None => match unsigned_lit(s, u8::MAX as int) {
            Some(n) => if n > 127 {
                None
            } else {
                Some(n)
            },
            None => None,
        },
    }
}

/// The inputs `check_i8_key` accepts: a known key name or a valid `i8`
/// literal.
pub open spec fn i8_key_valid(s: Seq<char>) -> bool {
    key_lookup(to_lower(s)) is Some || signed_lit(s, i8::MIN as int, i8::MAX as int) is Some
}

/// What `check_i8_key` returns on an accepted input; numbers below -1 resolve
/// to an absent result.
pub open spec fn i8_key_value(s: Seq<char>) -> Option<int> {
    match key_lookup(to_lower(s)) {
        Some(k) => if k < -1 {
            None
        } else {
            Some(k)
        },
        None => match signed_lit(s, i8::MIN as int, i8::MAX as int) {
            Some(n) => if n < -1 {
                None
            } else {
                Some(n)
            },
            None => None,
        },
    }
}

/// Resolves `value` as a key name or `u8` key number; keys outside the
/// unsigned range 0 ..= 127 (in particular key -1) are absent.
pub fn check_u8_key(value: &str) -> (r: Option<u8>)
    requires
        u8_key_valid(value@),
    ensures
        match r {
            Some(n) => u8_key_value(value@) == Some(n as int),
            None => u8_key_value(value@) is None,
        },
{
    let chars = str_to_chars(value);
    let low = lower_chars(&chars);
    let table = build_key_name_map();
    proof {
        lemma_table_values(127, low@);
    }
    match lookup_key_table(&table, &low) {
        Some(k) => if k < 0 {
            None
        } else {
            Some(k as u8)
        },
        None => match parse_unsigned_chars(&chars, 255) {
            Some(n) => if n > 127 {
                None
            } else {
                Some(n as u8)
            },
            None => vstd::pervasive::unreached(),
        },
    }
}

/// Resolves `value` as a key name or `i8` key number; numbers below the
/// extended range (less than -1) are absent.
pub fn check_i8_key(value: &str) -> (r: Option<i8>)
    requires
        i8_key_valid(value@),
    ensures
        match r {
            Some(n) => i8_key_value(value@) == Some(n as int),
            None => i8_key_value(value@) is None,
        },
{
    let chars = str_to_chars(value);
    let low = lower_chars(&chars);
    let table = build_key_name_map();
    proof {
        lemma_table_values(127, low@);
    }
    match lookup_key_table(&table, &low) {
        Some(k) => if k < -1 {
            None
        } else {
            Some(k)
        },
        None => match parse_signed_chars(&chars, -128, 127) {
            Some(n) => if n < -1 {
                None
            } else {
                Some(n as i8)
            },
            None => vstd::pervasive::unreached(),
        },
    }
}

/// For every key `k` in -1 ..= 127, both generated spellings of `k` resolve
/// to `k`; the names are already lowercase, so any case mixture resolves the
/// same way through `to_lower`.  Key -1 is rejected by the unsigned accessor
/// and kept by the signed one.
pub proof fn lemma_key_name_resolution(k: int)
    requires
        -1 <= k <= 127,
    ensures
        key_lookup(sharp_name(k)) == Some(k),
        key_lookup(flat_name(k)) == Some(k),
        to_lower(sharp_name(k)) == sharp_name(k),
        to_lower(flat_name(k)) == flat_name(k),
        u8_key_value(sharp_name(k)) == if k < 0 {
            None
        } else {
            Some(k)
        },
        i8_key_value(sharp_name(k)) == Some(k),
{
    lemma_thru_hits(127, k, sharp_name(k));
    lemma_thru_hits(127, k, flat_name(k));
    assert(to_lower(sharp_name(k)) =~= sharp_name(k));
    assert(to_lower(flat_name(k)) =~= flat_name(k));
}

} // verus!
