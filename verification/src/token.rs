//! The token vocabulary of the format: headers, which open scopes or
//! declarative sections, and opcodes, `name=value` declarations whose name
//! selects a validated value domain.

use vstd::prelude::*;

verus! {

/// The scope or section a header introduces.
#[derive(Debug, Clone, Copy, PartialEq, Eq, Structural)]
pub enum HeaderKind {
    Control,
    Global,
    Master,
    Group,
    Region,
    Curve,
    Effect,
}

/// Values of the `loop_mode` opcode.
#[derive(Debug, Clone, Copy, PartialEq, Eq, Structural)]
pub enum LoopModeKind {
    NoLoop,
    OneShot,
    LoopContinuous,
    LoopSustain,
}

/// Values of the `trigger` opcode.
#[derive(Debug, Clone, Copy, PartialEq, Eq, Structural)]
pub enum TriggerKind {
    Attack,
    Release,
    First,
    Legato,
}

/// The numeric domain a fatal literal error was expecting.
#[derive(Debug, Clone, Copy, PartialEq, Eq, Structural)]
pub enum LitKind {
    U8Lit,
    I8Lit,
    U16Lit,
    I16Lit,
    U32Lit,
    KeyLit,
}

/// A recognized opcode with its validated payload.  The variant is the
/// opcode's identity: maps key their entries by it, not by the payload.
#[derive(Debug, PartialEq)]
pub enum Opcode {
    Sample(Vec<char>),
    DefaultPath(Vec<char>),
    Key(u8),
    Lokey(u8),
    Hikey(u8),
    PitchKeycenter(u8),
    Lovel(u8),
    Hivel(u8),
    SeqLength(u8),
    SeqPosition(u8),
    Transpose(i8),
    Tune(i16),
    Offset(u32),
    Count(u32),
    LoopMode(LoopModeKind),
    Trigger(TriggerKind),
}

/// Mathematical image of an `Opcode`: string payloads become sequences.
#[verifier::ext_equal]
pub enum OpV {
    Sample(Seq<char>),
    DefaultPath(Seq<char>),
    Key(u8),
    Lokey(u8),
    Hikey(u8),
    PitchKeycenter(u8),
    Lovel(u8),
    Hivel(u8),
    SeqLength(u8),
    SeqPosition(u8),
    Transpose(i8),
    Tune(i16),
    Offset(u32),
    Count(u32),
    LoopMode(LoopModeKind),
    Trigger(TriggerKind),
}

impl DeepView for Opcode {
    type V = OpV;

    open spec fn deep_view(&self) -> OpV {
        match self {
            Opcode::Sample(p) => OpV::Sample(p@),
            Opcode::DefaultPath(p) => OpV::DefaultPath(p@),
            Opcode::Key(n) => OpV::Key(*n),
            Opcode::Lokey(n) => OpV::Lokey(*n),
            Opcode::Hikey(n) => OpV::Hikey(*n),
            Opcode::PitchKeycenter(n) => OpV::PitchKeycenter(*n),
            Opcode::Lovel(n) => OpV::Lovel(*n),
            Opcode::Hivel(n) => OpV::Hivel(*n),
            Opcode::SeqLength(n) => OpV::SeqLength(*n),
            Opcode::SeqPosition(n) => OpV::SeqPosition(*n),
            Opcode::Transpose(n) => OpV::Transpose(*n),
            Opcode::Tune(n) => OpV::Tune(*n),
            Opcode::Offset(n) => OpV::Offset(*n),
            Opcode::Count(n) => OpV::Count(*n),
            Opcode::LoopMode(m) => OpV::LoopMode(*m),
            Opcode::Trigger(t) => OpV::Trigger(*t),
        }
    }
}

/// An opcode's identity, used as the map key.
#[derive(Debug, Clone, Copy, PartialEq, Eq, Structural)]
pub enum OpcodeName {
    Sample,
    DefaultPath,
    Key,
    Lokey,
    Hikey,
    PitchKeycenter,
    Lovel,
    Hivel,
    SeqLength,
    SeqPosition,
    Transpose,
    Tune,
    Offset,
    Count,
    LoopMode,
    Trigger,
}

/// Identity of an abstract opcode.
pub open spec fn op_name(o: OpV) -> OpcodeName {
    match o {
        OpV::Sample(_) => OpcodeName::Sample,
        OpV::DefaultPath(_) => OpcodeName::DefaultPath,
        OpV::Key(_) => OpcodeName::Key,
        OpV::Lokey(_) => OpcodeName::Lokey,
        OpV::Hikey(_) => OpcodeName::Hikey,
        OpV::PitchKeycenter(_) => OpcodeName::PitchKeycenter,
        OpV::Lovel(_) => OpcodeName::Lovel,
        OpV::Hivel(_) => OpcodeName::Hivel,
        OpV::SeqLength(_) => OpcodeName::SeqLength,
        OpV::SeqPosition(_) => OpcodeName::SeqPosition,
        OpV::Transpose(_) => OpcodeName::Transpose,
        OpV::Tune(_) => OpcodeName::Tune,
        OpV::Offset(_) => OpcodeName::Offset,
        OpV::Count(_) => OpcodeName::Count,
        OpV::LoopMode(_) => OpcodeName::LoopMode,
        OpV::Trigger(_) => OpcodeName::Trigger,
    }
}

impl Opcode {
    /// Identity of this opcode.
    pub fn name(&self) -> (n: OpcodeName)
        ensures
            n == op_name(self.deep_view()),
    {
        match self {
            Opcode::Sample(_) => OpcodeName::Sample,
            Opcode::DefaultPath(_) => OpcodeName::DefaultPath,
            Opcode::Key(_) => OpcodeName::Key,
            Opcode::Lokey(_) => OpcodeName::Lokey,
            Opcode::Hikey(_) => OpcodeName::Hikey,
            Opcode::PitchKeycenter(_) => OpcodeName::PitchKeycenter,
            Opcode::Lovel(_) => OpcodeName::Lovel,
            Opcode::Hivel(_) => OpcodeName::Hivel,
            Opcode::SeqLength(_) => OpcodeName::SeqLength,
            Opcode::SeqPosition(_) => OpcodeName::SeqPosition,
            Opcode::Transpose(_) => OpcodeName::Transpose,
            Opcode::Tune(_) => OpcodeName::Tune,
            Opcode::Offset(_) => OpcodeName::Offset,
            Opcode::Count(_) => OpcodeName::Count,
            Opcode::LoopMode(_) => OpcodeName::LoopMode,
            Opcode::Trigger(_) => OpcodeName::Trigger,
        }
    }
}

/// Copies a character vector.
pub(crate) fn clone_chars(v: &Vec<char>) -> (r: Vec<char>)
    ensures
        r@ == v@,
{
    let mut r: Vec<char> = Vec::new();
    let mut i: usize = 0;
    while i < v.len()
        invariant
            i <= v@.len(),
            r@ == v@.take(i as int),
        decreases v@.len() - i,
    {
        r.push(v[i]);
        proof {
            assert(r@ =~= v@.take(i + 1));
        }
        i += 1;
    }
    proof {
        assert(r@ =~= v@);
    }
    r
}

/// Copies an opcode, payload included.
pub(crate) fn clone_opcode(o: &Opcode) -> (r: Opcode)
    ensures
        r.deep_view() == o.deep_view(),
{
    match o {
        Opcode::Sample(p) => Opcode::Sample(clone_chars(p)),
        Opcode::DefaultPath(p) => Opcode::DefaultPath(clone_chars(p)),
        Opcode::Key(n) => Opcode::Key(*n),
        Opcode::Lokey(n) => Opcode::Lokey(*n),
        Opcode::Hikey(n) => Opcode::Hikey(*n),
        Opcode::PitchKeycenter(n) => Opcode::PitchKeycenter(*n),
        Opcode::Lovel(n) => Opcode::Lovel(*n),
        Opcode::Hivel(n) => Opcode::Hivel(*n),
        Opcode::SeqLength(n) => Opcode::SeqLength(*n),
        Opcode::SeqPosition(n) => Opcode::SeqPosition(*n),
        Opcode::Transpose(n) => Opcode::Transpose(*n),
        Opcode::Tune(n) => Opcode::Tune(*n),
        Opcode::Offset(n) => Opcode::Offset(*n),
        Opcode::Count(n) => Opcode::Count(*n),
        Opcode::LoopMode(m) => Opcode::LoopMode(*m),
        Opcode::Trigger(t) => Opcode::Trigger(*t),
    }
}

/// One lexical unit of the source text.
#[derive(Debug, PartialEq)]
pub enum Token {
    Header(HeaderKind),
    Opcode(Opcode),
}

/// Mathematical image of a `Token`.
#[verifier::ext_equal]
pub enum TokV {
    Header(HeaderKind),
    Opcode(OpV),
}

impl DeepView for Token {
    type V = TokV;

    open spec fn deep_view(&self) -> TokV {
        match self {
            Token::Header(h) => TokV::Header(*h),
            Token::Opcode(o) => TokV::Opcode(o.deep_view()),
        }
    }
}

} // verus!
