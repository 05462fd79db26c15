//! The scope-resolution builder and the final `Instrument` aggregate.
//!
//! The builder is a state machine over scope levels 0-3 (Global, Master,
//! Group, Region).  A stack holds the completed ancestor scopes; the current
//! scope inherits every ancestor entry by copy when it opens, so a finished
//! region map is fully resolved.  A `<control>` header routes opcodes to a
//! separate control map until a structural header arrives; a `default_path`
//! opcode seen there resolves the sample search path against the base path.
//! `<curve>` and `<effect>` headers are recognized but open no scope: their
//! opcodes attach to whatever scope or mode was last active, a documented
//! open point of the format.

use vstd::prelude::*;

use crate::lexer::spec_tokenize;
use crate::lexer::tokenize;
use crate::lexer::ErrV;
use crate::lexer::SfzError;
use crate::parse::str_to_chars;
use crate::token::clone_chars;
use crate::token::clone_opcode;
use crate::token::op_name;
use crate::token::HeaderKind;
use crate::token::Opcode;
use crate::token::OpcodeName;
use crate::token::OpV;
use crate::token::Token;
use crate::token::TokV;

verus! {

// ---------------------------------------------------------------------------
// Opcode maps
// ---------------------------------------------------------------------------

/// First entry of `s` with identity `n`.
pub open spec fn lookup_code(s: Seq<OpV>, n: OpcodeName) -> Option<OpV>
    decreases s.len(),
{
    if s.len() == 0 {
        None
    } else if op_name(s[0]) == n {
        Some(s[0])
    } else {
        lookup_code(s.skip(1), n)
    }
}

/// Index of the first entry of `s` with identity `n`, or -1.
pub open spec fn idx_of_name(s: Seq<OpV>, n: OpcodeName) -> int
    decreases s.len(),
{
    if s.len() == 0 {
        -1
    } else if op_name(s[0]) == n {
        0
    } else {
        if idx_of_name(s.skip(1), n) == -1 {
            -1
        } else {
            1 + idx_of_name(s.skip(1), n)
        }
    }
}

/// Insert-or-overwrite by identity: a later opcode of the same name replaces
/// the earlier one in place, keeping its position.
pub open spec fn upsert_code(s: Seq<OpV>, o: OpV) -> Seq<OpV> {
    if idx_of_name(s, op_name(o)) == -1 {
        s.push(o)
    } else {
        s.update(idx_of_name(s, op_name(o)), o)
    }
}

proof fn lemma_idx_of_name_at(s: Seq<OpV>, n: OpcodeName, p: int)
    requires
        0 <= p <= s.len(),
        forall|j: int| 0 <= j < p ==> op_name(#[trigger] s[j]) != n,
        p < s.len() ==> op_name(s[p]) == n,
    ensures
        idx_of_name(s, n) == if p == s.len() {
            -1
        } else {
            p
        },
    decreases p,
{
    if p == 0 {
    } else {
        lemma_idx_of_name_at(s.skip(1), n, p - 1);
    }
}

/// An ordered, key-unique mapping from opcode identity to opcode, resolved:
/// inherited entries were copied in when the scope opened.
#[derive(Debug, PartialEq)]
pub struct OpcodeMap {
    codes: Vec<Opcode>,
}

impl View for OpcodeMap {
    type V = Seq<OpV>;

    closed spec fn view(&self) -> Seq<OpV> {
        self.codes.deep_view()
    }
}

impl DeepView for OpcodeMap {
    type V = Seq<OpV>;

    open spec fn deep_view(&self) -> Seq<OpV> {
        self.view()
    }
}

impl OpcodeMap {
    /// An empty map.
    pub fn new() -> (m: OpcodeMap)
        ensures
            m@ == Seq::<OpV>::empty(),
    {
        let m = OpcodeMap { codes: Vec::new() };
        proof {
            assert(m@ =~= Seq::<OpV>::empty());
        }
        m
    }

    /// Number of entries.
    pub fn len(&self) -> (n: usize)
        ensures
            n == self@.len(),
    {
        self.codes.len()
    }

    /// The entry at position `i`, in insertion order.
    pub fn opcode_at(&self, i: usize) -> (r: &Opcode)
        requires
            i < self@.len(),
        ensures
            r.deep_view() == self@[i as int],
    {
        &self.codes[i]
    }

    /// First (and, by construction, only) entry with identity `n`.
    pub fn get(&self, n: OpcodeName) -> (r: Option<&Opcode>)
        ensures
            match r {
                Some(op) => lookup_code(self@, n) == Some(op.deep_view()),
                None => lookup_code(self@, n) is None,
            },
    {
        let mut i: usize = 0;
        proof {
            assert(self@.skip(0) =~= self@);
        }
        while i < self.codes.len()
            invariant
                i <= self@.len(),
                self@.len() == self.codes@.len(),
                lookup_code(self@, n) == lookup_code(self@.skip(i as int), n),
            decreases self@.len() - i,
        {
            proof {
                assert(self@.skip(i as int)[0] == self@[i as int]);
                assert(self@.skip(i as int).skip(1) =~= self@.skip(i + 1));
            }
            if self.codes[i].name() == n {
                return Some(&self.codes[i]);
            }
            i += 1;
        }
        None
    }

    /// Upserts `o` by identity; never touches an ancestor, only this map.
    pub fn add_opcode(&mut self, o: Opcode)
        ensures
            final(self)@ == upsert_code(old(self)@, o.deep_view()),
    {
        let ghost ov = o.deep_view();
        let n = o.name();
        let mut i: usize = 0;
        while i < self.codes.len()
            invariant
                i <= self@.len(),
                self@.len() == self.codes@.len(),
                self@ == old(self)@,
                n == op_name(ov),
                ov == o.deep_view(),
                forall|j: int| 0 <= j < i ==> op_name(#[trigger] self@[j]) != n,
            decreases self@.len() - i,
        {
            if self.codes[i].name() == n {
                proof {
                    lemma_idx_of_name_at(self@, n, i as int);
                }
                self.codes[i] = o;
                proof {
                    assert(self@ =~= old(self)@.update(i as int, ov));
                }
                return ;
            }
            i += 1;
        }
        proof {
            lemma_idx_of_name_at(self@, n, self@.len() as int);
        }
        self.codes.push(o);
        proof {
            assert(self@ =~= old(self)@.push(ov));
        }
    }
}

/// Copies a map, entries and order included.
fn clone_map(m: &OpcodeMap) -> (r: OpcodeMap)
    ensures
        r@ == m@,
{
    let mut codes: Vec<Opcode> = Vec::new();
    let mut i: usize = 0;
    while i < m.codes.len()
        invariant
            i <= m@.len(),
            m@.len() == m.codes@.len(),
            codes@.len() == i,
            forall|j: int| 0 <= j < i ==> #[trigger] codes@[j].deep_view() == m@[j],
        decreases m@.len() - i,
    {
        let c = clone_opcode(&m.codes[i]);
        proof {
            assert(c.deep_view() == m@[i as int]);
        }
        codes.push(c);
        i += 1;
    }
    let r = OpcodeMap { codes };
    proof {
        assert forall|j: int| 0 <= j < m@.len() implies r@[j] == m@[j] by {
            assert(r@[j] == codes@[j].deep_view());
        }
        assert(r@ =~= m@);
    }
    r
}

// ---------------------------------------------------------------------------
// Path joining
// ---------------------------------------------------------------------------

/// Joins a relative path onto a base path: an absolute relative path
/// replaces the base, otherwise the two are joined with a single separator.
pub open spec fn join_path(base: Seq<char>, rel: Seq<char>) -> Seq<char> {
    if rel.len() > 0 && rel[0] == '/' {
        rel
    } else if base.len() == 0 {
        rel
    } else if base.last() == '/' {
        base + rel
    } else {
        base + seq!['/'] + rel
    }
}

fn join_path_exec(base: &Vec<char>, rel: &Vec<char>) -> (r: Vec<char>)
    ensures
        r@ == join_path(base@, rel@),
{
    if rel.len() > 0 && rel[0] == '/' {
        clone_chars(rel)
    } else if base.len() == 0 {
        clone_chars(rel)
    } else {
        let mut r = clone_chars(base);
        if base[base.len() - 1] != '/' {
            r.push('/');
            proof {
                assert(r@ =~= base@ + seq!['/']);
            }
        }
        let mut rest = clone_chars(rel);
        r.append(&mut rest);
        proof {
            if base@.last() == '/' {
                assert(r@ =~= base@ + rel@);
            } else {
                assert(r@ =~= base@ + seq!['/'] + rel@);
            }
        }
        r
    }
}

// ---------------------------------------------------------------------------
// The builder state machine
// ---------------------------------------------------------------------------

/// Abstract builder state: finished regions, the control mode and map, the
/// ancestor stack (shallowest first), the current scope, and the resolved
/// default path.
#[verifier::ext_equal]
pub struct BState {
    pub regions: Seq<Seq<OpV>>,
    pub is_control: bool,
    pub control_codes: Seq<OpV>,
    pub levels: Seq<Seq<OpV>>,
    pub current: Seq<OpV>,
    pub default_path: Seq<char>,
}

/// The state before any token: level 0 is implicitly open, so opcodes ahead
/// of the first header land in a current map from the start.
pub open spec fn init_state(base: Seq<char>) -> BState {
    BState {
        regions: Seq::empty(),
        is_control: false,
        control_codes: Seq::empty(),
        levels: Seq::empty(),
        current: Seq::empty(),
        default_path: base,
    }
}

/// The transition a structural header at level `lvl` causes: flush a
/// finished region, discard now-irrelevant deeper scopes, and open a fresh
/// current scope that inherits from the stack top, synthesizing empty
/// intermediate scopes when the file jumps levels downward.
pub open spec fn spec_step_to_level(st: BState, lvl: int) -> BState {
    let st1 = if st.levels.len() == 3 {
        BState { regions: st.regions.push(st.current), ..st }
    } else {
        st
    };
    let popped = if st1.levels.len() > lvl {
        st1.levels.take(lvl)
    } else {
        st1.levels
    };
    if popped.len() == lvl {
        BState {
            levels: popped,
            current: if lvl == 0 {
                Seq::empty()
            } else {
                popped.last()
            },
            ..st1
        }
    } else {
        BState {
            levels: popped + Seq::new((lvl - popped.len()) as nat, |j: int| st1.current),
            current: st1.current,
            ..st1
        }
    }
}

/// The transition one token causes.
pub open spec fn spec_step(st: BState, t: TokV, base: Seq<char>) -> BState {
    match t {
        TokV::Header(h) => match h {
            HeaderKind::Control => BState { is_control: true, ..st },
            HeaderKind::Global => spec_step_to_level(BState { is_control: false, ..st }, 0),
            HeaderKind::Master => spec_step_to_level(BState { is_control: false, ..st }, 1),
            HeaderKind::Group => spec_step_to_level(BState { is_control: false, ..st }, 2),
            HeaderKind::Region => spec_step_to_level(BState { is_control: false, ..st }, 3),
            HeaderKind::Curve => st,
            HeaderKind::Effect => st,
        },
        TokV::Opcode(o) => if st.is_control {
            let st1 = BState { control_codes: upsert_code(st.control_codes, o), ..st };
            match o {
                OpV::DefaultPath(p) => BState { default_path: join_path(base, p), ..st1 },
                _ => st1,
            }
        } else {
            BState { current: upsert_code(st.current, o), ..st }
        },
    }
}

/// The state after the first `n` tokens.
pub open spec fn build_upto(toks: Seq<TokV>, base: Seq<char>, n: int) -> BState
    decreases n,
{
    if n <= 0 {
        init_state(base)
    } else {
        spec_step(build_upto(toks, base, n - 1), toks[n - 1], base)
    }
}

/// Mathematical image of an `Instrument`.
#[verifier::ext_equal]
pub struct InstrumentV {
    pub regions: Seq<Seq<OpV>>,
    pub default_path: Seq<char>,
    pub control_codes: Seq<OpV>,
}

/// The instrument a token sequence resolves to: run every token through the
/// builder, then flush the final open region by stepping to level 0.
pub open spec fn spec_instrument(toks: Seq<TokV>, base: Seq<char>) -> InstrumentV {
    let fin = spec_step_to_level(build_upto(toks, base, toks.len() as int), 0);
    InstrumentV {
        regions: fin.regions,
        default_path: fin.default_path,
        control_codes: fin.control_codes,
    }
}

/// The outcome of a whole parse: the resolved instrument, or the first
/// fatal literal error.
pub open spec fn spec_parse(s: Seq<char>, base: Seq<char>) -> Result<InstrumentV, ErrV> {
    match spec_tokenize(s) {
        Ok(ts) => Ok(spec_instrument(ts, base)),
        Err(e) => Err(e),
    }
}

struct Builder {
    regions: Vec<OpcodeMap>,
    is_control: bool,
    control_codes: OpcodeMap,
    levels: Vec<OpcodeMap>,
    current: OpcodeMap,
    default_path: Vec<char>,
}

impl View for Builder {
    type V = BState;

    closed spec fn view(&self) -> BState {
        BState {
            regions: self.regions.deep_view(),
            is_control: self.is_control,
            control_codes: self.control_codes@,
            levels: self.levels.deep_view(),
            current: self.current@,
            default_path: self.default_path@,
        }
    }
}

/// The abstraction of a vector of opcode maps is determined element-wise.
proof fn lemma_maps_deep(v: &Vec<OpcodeMap>, t: Seq<Seq<OpV>>)
    requires
        v@.len() == t.len(),
        forall|j: int| 0 <= j < t.len() ==> (#[trigger] v@[j].deep_view()) == t[j],
    ensures
        v.deep_view() == t,
{
    assert forall|j: int| 0 <= j < t.len() implies v.deep_view()[j] == t[j] by {
        assert(v.deep_view()[j] == v@[j].deep_view());
    }
    assert(v.deep_view() =~= t);
}

/// Indexing the abstraction of a vector of opcode maps.
proof fn lemma_maps_deep_index(v: &Vec<OpcodeMap>)
    ensures
        v.deep_view().len() == v@.len(),
        forall|j: int| 0 <= j < v@.len() ==> v.deep_view()[j] == (#[trigger] v@[j].deep_view()),
{
}

impl Builder {
    #[verifier::loop_isolation(false)]
    fn step_to_level(&mut self, lvl: usize)
        requires
            lvl <= 3,
        ensures
            final(self)@ == spec_step_to_level(old(self)@, lvl as int),
    {
        let ghost st0 = self@;
        if self.levels.len() == 3 {
            let frozen = clone_map(&self.current);
            let ghost rvec = self.regions@;
            self.regions.push(frozen);
            proof {
                lemma_maps_deep_index(&self.regions);
                assert(self.regions@ == rvec.push(frozen));
                assert forall|j: int|
                    0 <= j < self.regions@.len() implies (#[trigger] self.regions@[
                    j
                ].deep_view()) == st0.regions.push(st0.current)[j] by {
                    if j < rvec.len() {
                        assert(self.regions@[j] == rvec[j]);
                        assert(st0.regions[j] == rvec[j].deep_view());
                    } else {
                        assert(self.regions@[j] == frozen);
                    }
                }
                lemma_maps_deep(&self.regions, st0.regions.push(st0.current));
            }
        }
        let ghost st1 = self@;
        let ghost lvec = self.levels@;
        let ghost rsnap = self.regions@;
        let ghost ccsnap = self.control_codes;
        let ghost cursnap = self.current;
        let ghost dpsnap = self.default_path@;
        let ghost target = if st1.levels.len() > lvl as int {
            st1.levels.take(lvl as int)
        } else {
            st1.levels
        };
        proof {
            lemma_maps_deep_index(&self.levels);
        }
        while self.levels.len() > lvl
            invariant
                self.levels@.len() <= lvec.len(),
                lvl <= lvec.len() ==> lvl <= self.levels@.len(),
                lvec.len() < lvl ==> self.levels@.len() == lvec.len(),
                forall|j: int| 0 <= j < self.levels@.len() ==> self.levels@[j] == lvec[j],
                self.regions@ == rsnap,
                self.is_control == st1.is_control,
                self.control_codes == ccsnap,
                self.current == cursnap,
                self.default_path@ == dpsnap,
            decreases self.levels@.len(),
        {
            let ghost before = self.levels@;
            let _ = self.levels.pop();
            proof {
                assert(forall|j: int|
                    0 <= j < self.levels@.len() ==> self.levels@[j] == before[j]);
            }
        }
        proof {
            assert forall|j: int|
                0 <= j < self.levels@.len() implies (#[trigger] self.levels@[j].deep_view())
                == target[j] by {
                assert(self.levels@[j] == lvec[j]);
                assert(st1.levels[j] == lvec[j].deep_view());
            }
            lemma_maps_deep(&self.levels, target);
        }
        if self.levels.len() == lvl {
            if lvl == 0 {
                self.current = OpcodeMap::new();
            } else {
                proof {
                    lemma_maps_deep_index(&self.levels);
                    assert(self.levels@[lvl - 1].deep_view() == target[lvl - 1]);
                    assert(target[lvl - 1] == target.last());
                }
                let parent = clone_map(&self.levels[lvl - 1]);
                self.current = parent;
            }
            proof {
                assert(self@ =~= spec_step_to_level(st0, lvl as int));
            }
        } else {
            let ghost pvec = self.levels@;
            while self.levels.len() < lvl
                invariant
                    lvl <= 3,
                    pvec.len() == target.len() < lvl,
                    pvec.len() <= self.levels@.len() <= lvl,
                    forall|j: int| 0 <= j < pvec.len() ==> self.levels@[j] == pvec[j],
                    forall|j: int|
                        pvec.len() <= j < self.levels@.len() ==> (#[trigger] self.levels@[
                        j
                    ].deep_view()) == st1.current,
                    forall|j: int|
                        0 <= j < pvec.len() ==> (#[trigger] pvec[j].deep_view()) == target[j],
                    self.regions@ == rsnap,
                    self.is_control == st1.is_control,
                    self.control_codes == ccsnap,
                    self.current == cursnap,
                    self.default_path@ == dpsnap,
                decreases lvl - self.levels@.len(),
            {
                let frozen = clone_map(&self.current);
                let ghost before = self.levels@;
                self.levels.push(frozen);
                proof {
                    assert(forall|j: int|
                        0 <= j < before.len() ==> self.levels@[j] == before[j]);
                    assert(self.levels@[before.len() as int] == frozen);
                    assert(self.levels@[before.len() as int].deep_view() == st1.current);
                }
            }
            proof {
                let whole = target + Seq::new((lvl - target.len()) as nat, |j: int| st1.current);
                assert forall|j: int|
                    0 <= j < self.levels@.len() implies (#[trigger] self.levels@[j].deep_view())
                    == whole[j] by {
                    if j < pvec.len() {
                        assert(self.levels@[j] == pvec[j]);
                    }
                }
                lemma_maps_deep(&self.levels, whole);
                assert(self@ =~= spec_step_to_level(st0, lvl as int));
            }
        }
    }

    fn apply_token(&mut self, t: &Token, base: &Vec<char>)
        ensures
            final(self)@ == spec_step(old(self)@, t.deep_view(), base@),
    {
        match t {
            Token::Header(h) => {
                match h {
                    HeaderKind::Control => {
                        self.is_control = true;
                        proof {
                            assert(self@ =~= spec_step(old(self)@, t.deep_view(), base@));
                        }
                    },
                    HeaderKind::Global => {
                        self.is_control = false;
                        self.step_to_level(0);
                    },
                    HeaderKind::Master => {
                        self.is_control = false;
                        self.step_to_level(1);
                    },
                    HeaderKind::Group => {
                        self.is_control = false;
                        self.step_to_level(2);
                    },
                    HeaderKind::Region => {
                        self.is_control = false;
                        self.step_to_level(3);
                    },
                    HeaderKind::Curve => {
                    },
                    HeaderKind::Effect => {
                    },
                }
            },
            Token::Opcode(o) => {
                if self.is_control {
                    if let Opcode::DefaultPath(p) = o {
                        self.default_path = join_path_exec(base, p);
                    }
                    self.control_codes.add_opcode(clone_opcode(o));
                    proof {
                        assert(self@ =~= spec_step(old(self)@, t.deep_view(), base@));
                    }
                } else {
                    self.current.add_opcode(clone_opcode(o));
                    proof {
                        assert(self@ =~= spec_step(old(self)@, t.deep_view(), base@));
                    }
                }
            },
        }
    }
}

// ---------------------------------------------------------------------------
// The instrument
// ---------------------------------------------------------------------------

/// The parsed instrument: one fully resolved opcode map per region, in the
/// order the regions were closed; the resolved default sample-search path;
/// and the control-scope declarations.  Immutable once built.
#[derive(Debug, PartialEq)]
pub struct Instrument {
    pub regions: Vec<OpcodeMap>,
    pub default_path: Vec<char>,
    control_codes: OpcodeMap,
}

impl View for Instrument {
    type V = InstrumentV;

    closed spec fn view(&self) -> InstrumentV {
        InstrumentV {
            regions: self.regions.deep_view(),
            default_path: self.default_path@,
            control_codes: self.control_codes@,
        }
    }
}

impl Instrument {
    /// The control-scope opcode map.
    pub fn control_codes(&self) -> (r: &OpcodeMap)
        ensures
            r@ == self@.control_codes,
    {
        &self.control_codes
    }

    /// Parses SFZ source text into an instrument.
    ///
    /// `sfz_path` is the base location samples are found under; a
    /// `default_path` opcode in the control scope is joined onto it.  The
    /// parse fails exactly when some recognized opcode carries a value that
    /// is not syntactically a number of its width; out-of-range values and
    /// unrecognized names or headers never fail.
    pub fn from_sfz(sfz: &str, sfz_path: &str) -> (r: Result<Instrument, SfzError>)
        ensures
            match r {
                Ok(inst) => spec_parse(sfz@, sfz_path@) == Ok::<InstrumentV, ErrV>(inst@),
                Err(e) => spec_parse(sfz@, sfz_path@) == Err::<InstrumentV, ErrV>(e@),
            },
    {
        let chars = str_to_chars(sfz);
        let base = str_to_chars(sfz_path);
        let toks = match tokenize(&chars) {
            Ok(t) => t,
            Err(e) => {
                return Err(e);
            },
        };
        let ghost tv = toks.deep_view();
        let mut b = Builder {
            regions: Vec::new(),
            is_control: false,
            control_codes: OpcodeMap::new(),
            levels: Vec::new(),
            current: OpcodeMap::new(),
            default_path: clone_chars(&base),
        };
        proof {
            assert(b.regions.deep_view() =~= Seq::<Seq<OpV>>::empty());
            assert(b.levels.deep_view() =~= Seq::<Seq<OpV>>::empty());
            assert(b@ =~= init_state(base@));
        }
        let mut i: usize = 0;
        while i < toks.len()
            invariant
                i <= toks@.len(),
                tv == toks.deep_view(),
                tv.len() == toks@.len(),
                base@ == sfz_path@,
                b@ == build_upto(tv, base@, i as int),
            decreases toks@.len() - i,
        {
            proof {
                assert(tv[i as int] == toks@[i as int].deep_view());
            }
            b.apply_token(&toks[i], &base);
            i += 1;
        }
        b.step_to_level(0);
        let inst = Instrument {
            regions: b.regions,
            default_path: b.default_path,
            control_codes: b.control_codes,
        };
        proof {
            assert(inst@ =~= spec_instrument(tv, base@));
        }
        Ok(inst)
    }
}

// ---------------------------------------------------------------------------
// Laws of the builder
// ---------------------------------------------------------------------------

/// Parsing is deterministic: two successful parses of the same source with
/// the same base path are structurally identical.  No hidden mutable state
/// affects the result.
pub proof fn lemma_parse_deterministic(
    s: Seq<char>,
    base: Seq<char>,
    a: InstrumentV,
    b: InstrumentV,
)
    requires
        spec_parse(s, base) == Ok::<InstrumentV, ErrV>(a),
        spec_parse(s, base) == Ok::<InstrumentV, ErrV>(b),
    ensures
        a == b,
{
}

/// End of input flushes an open region: the final step to level 0 appends
/// the current map to the region list exactly when a region scope is open.
pub proof fn lemma_final_flush(st: BState)
    requires
        st.levels.len() == 3,
    ensures
        spec_step_to_level(st, 0).regions == st.regions.push(st.current),
        spec_step_to_level(st, 0).levels == Seq::<Seq<OpV>>::empty(),
{
    assert(st.levels.take(0) =~= Seq::<Seq<OpV>>::empty());
}

/// A region opened directly from the initial state inherits nothing: the
/// synthesized intermediate ancestors are all empty, and so is the new
/// current map.
pub proof fn lemma_synthesized_ancestors_empty(base: Seq<char>)
    ensures
        spec_step_to_level(init_state(base), 3).current == Seq::<OpV>::empty(),
        forall|j: int|
            0 <= j < 3 ==> spec_step_to_level(init_state(base), 3).levels[j] == Seq::<
                OpV,
            >::empty(),
{
}

/// Outside control mode, no opcode moves the default path; only a
/// `default_path` opcode in the control scope does.
pub proof fn lemma_default_path_stable(st: BState, t: TokV, base: Seq<char>)
    requires
        !(st.is_control && (t matches TokV::Opcode(o) && (o matches OpV::DefaultPath(_)))),
    ensures
        spec_step(st, t, base).default_path == st.default_path,
{
}

} // verus!
