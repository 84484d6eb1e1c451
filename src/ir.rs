use vstd::prelude::*;

verus! {

/// A storage location identifier; its meaning depends on the owning [`Var`] variant.
pub type Addr = u32;

/// The closed set of p-code micro-operations.
#[derive(Clone, Copy, Debug, PartialEq, Eq, Structural, Hash)]
pub enum Opcode {
    Copy,
    IntAdd,
    BoolOr,
    Load,
    IntSub,
    FloatEqual,
    Store,
    IntCarry,
    FloatNotEqual,
    Branch,
    IntSCarry,
    FloatLess,
    CBranch,
    IntSBorrow,
    FloatLessEqual,
    BrandInd,
    Int2Comp,
    FloatAdd,
    Call,
    IntNegate,
    FloatSub,
    CallInd,
    IntXor,
    FloatMult,
    UserDefined,
    IntAnd,
    FloatDIV,
    Return,
    IntOr,
    FloatNeg,
    Piece,
    IntLeft,
    FloatAbs,
    Subpiece,
    IntRight,
    FloatSqrt,
    IntEqual,
    IntSright,
    FloatCell,
    IntNotEqual,
    IntMult,
    FloatFloor,
    IntLess,
    IntDiv,
    FloatRound,
    IntSLess,
    IntRem,
    FloatNaN,
    IntLessEqual,
    IntSdiv,
    Int2Float,
    IntSLessEqual,
    IntSRem,
    Float2Float,
    IntZExt,
    BoolNegate,
    Trunc,
    IntSExt,
    BoolXor,
    CPoolRef,
    BoolAnd,
    New,
    CallOther,
}

/// The canonical mnemonic that spells `op` in a listing.
pub open spec fn mnemonic_text(op: Opcode) -> Seq<char> {
    match op {
        Opcode::Copy => "COPY"@,
        Opcode::IntAdd => "INT_ADD"@,
        Opcode::BoolOr => "BOOL_OR"@,
        Opcode::Load => "LOAD"@,
        Opcode::IntSub => "INT_SUB"@,
        Opcode::FloatEqual => "FLOAT_EQUAL"@,
        Opcode::Store => "STORE"@,
        Opcode::IntCarry => "INT_CARRY"@,
        Opcode::FloatNotEqual => "FLOAT_NOTEQUAL"@,
        Opcode::Branch => "BRANCH"@,
        Opcode::IntSCarry => "INT_SCARRY"@,
        Opcode::FloatLess => "FLOAT_LESS"@,
        Opcode::CBranch => "CBRANCH"@,
        Opcode::IntSBorrow => "INT_SBORROW"@,
        Opcode::FloatLessEqual => "FLOAT_LESSEQUAL"@,
        Opcode::BrandInd => "BRANCHIND"@,
        Opcode::Int2Comp => "INT_2COMP"@,
        Opcode::FloatAdd => "FLOAT_ADD"@,
        Opcode::Call => "CALL"@,
        Opcode::IntNegate => "INT_NEGATE"@,
        Opcode::FloatSub => "FLOAT_SUB"@,
        Opcode::CallInd => "CALLIND"@,
        Opcode::IntXor => "INT_XOR"@,
        Opcode::FloatMult => "FLOAT_MULT"@,
        Opcode::UserDefined => "USERDEFINED"@,
        Opcode::IntAnd => "INT_AND"@,
        Opcode::FloatDIV => "FLOAT_DIV"@,
        Opcode::Return => "RETURN"@,
        Opcode::IntOr => "INT_OR"@,
        Opcode::FloatNeg => "FLOAT_NEG"@,
        Opcode::Piece => "PIECE"@,
        Opcode::IntLeft => "INT_LEFT"@,
        Opcode::FloatAbs => "FLOAT_ABS"@,
        Opcode::Subpiece => "SUBPIECE"@,
        Opcode::IntRight => "INT_RIGHT"@,
        Opcode::FloatSqrt => "FLOAT_SQRT"@,
        Opcode::IntEqual => "INT_EQUAL"@,
        Opcode::IntSright => "INT_SRIGHT"@,
        Opcode::FloatCell => "FLOAT_CEIL"@,
        Opcode::IntNotEqual => "INT_NOTEQUAL"@,
        Opcode::IntMult => "INT_MULT"@,
        Opcode::FloatFloor => "FLOAT_FLOOR"@,
        Opcode::IntLess => "INT_LESS"@,
        Opcode::IntDiv => "INT_DIV"@,
        Opcode::FloatRound => "FLOAT_ROUND"@,
        Opcode::IntSLess => "INT_SLESS"@,
        Opcode::IntRem => "INT_REM"@,
        Opcode::FloatNaN => "FLOAT_NAN"@,
        Opcode::IntLessEqual => "INT_LESSEQUAL"@,
        Opcode::IntSdiv => "INT_SDIV"@,
        Opcode::Int2Float => "INT2FLOAT"@,
        Opcode::IntSLessEqual => "INT_SLESSEQUAL"@,
        Opcode::IntSRem => "INT_SREM"@,
        Opcode::Float2Float => "FLOAT2FLOAT"@,
        Opcode::IntZExt => "INT_ZEXT"@,
        Opcode::BoolNegate => "BOOL_NEGATE"@,
        Opcode::Trunc => "TRUNC"@,
        Opcode::IntSExt => "INT_SEXT"@,
        Opcode::BoolXor => "BOOL_XOR"@,
        Opcode::CPoolRef => "CPOOLREF"@,
        Opcode::BoolAnd => "BOOL_AND"@,
        Opcode::New => "NEW"@,
        Opcode::CallOther => "CALLOTHER"@,
    }
}

/// The opcode spelled exactly (case-sensitively) by `t`, if any.
pub open spec fn opcode_named(t: Seq<char>) -> Option<Opcode> {
    if exists|op: Opcode| mnemonic_text(op) == t {
        Some(choose|op: Opcode| mnemonic_text(op) == t)
    } else {
        None
    }
}

/// No two opcodes share a mnemonic.
pub proof fn lemma_mnemonic_injective(a: Opcode, b: Opcode)
    ensures
        mnemonic_text(a) == mnemonic_text(b) ==> a == b,
{
    if mnemonic_text(a) == mnemonic_text(b) {
        let x = mnemonic_text(a);
        let y = mnemonic_text(b);
        assert(x.len() == y.len() && x[0] == y[0] && x[1] == y[1] && x[2] == y[2] && x[3] == y[3]
            && x[4] == y[4] && x[5] == y[5] && x[6] == y[6] && x[7] == y[7] && x[8] == y[8]
            && x[9] == y[9] && x[10] == y[10]);
    }
    reveal_strlit("COPY");
    reveal_strlit("INT_ADD");
    reveal_strlit("BOOL_OR");
    reveal_strlit("LOAD");
    reveal_strlit("INT_SUB");
    reveal_strlit("FLOAT_EQUAL");
    reveal_strlit("STORE");
    reveal_strlit("INT_CARRY");
    reveal_strlit("FLOAT_NOTEQUAL");
    reveal_strlit("BRANCH");
    reveal_strlit("INT_SCARRY");
    reveal_strlit("FLOAT_LESS");
    reveal_strlit("CBRANCH");
    reveal_strlit("INT_SBORROW");
    reveal_strlit("FLOAT_LESSEQUAL");
    reveal_strlit("BRANCHIND");
    reveal_strlit("INT_2COMP");
    reveal_strlit("FLOAT_ADD");
    reveal_strlit("CALL");
    reveal_strlit("INT_NEGATE");
    reveal_strlit("FLOAT_SUB");
    reveal_strlit("CALLIND");
    reveal_strlit("INT_XOR");
    reveal_strlit("FLOAT_MULT");
    reveal_strlit("USERDEFINED");
    reveal_strlit("INT_AND");
    reveal_strlit("FLOAT_DIV");
    reveal_strlit("RETURN");
    reveal_strlit("INT_OR");
    reveal_strlit("FLOAT_NEG");
    reveal_strlit("PIECE");
    reveal_strlit("INT_LEFT");
    reveal_strlit("FLOAT_ABS");
    reveal_strlit("SUBPIECE");
    reveal_strlit("INT_RIGHT");
    reveal_strlit("FLOAT_SQRT");
    reveal_strlit("INT_EQUAL");
    reveal_strlit("INT_SRIGHT");
    reveal_strlit("FLOAT_CEIL");
    reveal_strlit("INT_NOTEQUAL");
    reveal_strlit("INT_MULT");
    reveal_strlit("FLOAT_FLOOR");
    reveal_strlit("INT_LESS");
    reveal_strlit("INT_DIV");
    reveal_strlit("FLOAT_ROUND");
    reveal_strlit("INT_SLESS");
    reveal_strlit("INT_REM");
    reveal_strlit("FLOAT_NAN");
    reveal_strlit("INT_LESSEQUAL");
    reveal_strlit("INT_SDIV");
    reveal_strlit("INT2FLOAT");
    reveal_strlit("INT_SLESSEQUAL");
    reveal_strlit("INT_SREM");
    reveal_strlit("FLOAT2FLOAT");
    reveal_strlit("INT_ZEXT");
    reveal_strlit("BOOL_NEGATE");
    reveal_strlit("TRUNC");
    reveal_strlit("INT_SEXT");
    reveal_strlit("BOOL_XOR");
    reveal_strlit("CPOOLREF");
    reveal_strlit("BOOL_AND");
    reveal_strlit("NEW");
    reveal_strlit("CALLOTHER");
}

/// Each opcode's mnemonic names that opcode.
pub proof fn lemma_opcode_named_mnemonic(op: Opcode)
    ensures
        opcode_named(mnemonic_text(op)) == Some(op),
{
    let t = mnemonic_text(op);
    let c = choose|c: Opcode| #[trigger] mnemonic_text(c) == t;
    lemma_mnemonic_injective(c, op);
}

impl Opcode {
    /// The mnemonic that spells this opcode.
    pub fn mnemonic(&self) -> (r: &'static str)
        ensures
            r@ == mnemonic_text(*self),
    {
        match self {
            Opcode::Copy => "COPY",
            Opcode::IntAdd => "INT_ADD",
            Opcode::BoolOr => "BOOL_OR",
            Opcode::Load => "LOAD",
            Opcode::IntSub => "INT_SUB",
            Opcode::FloatEqual => "FLOAT_EQUAL",
            Opcode::Store => "STORE",
            Opcode::IntCarry => "INT_CARRY",
            Opcode::FloatNotEqual => "FLOAT_NOTEQUAL",
            Opcode::Branch => "BRANCH",
            Opcode::IntSCarry => "INT_SCARRY",
            Opcode::FloatLess => "FLOAT_LESS",
            Opcode::CBranch => "CBRANCH",
            Opcode::IntSBorrow => "INT_SBORROW",
            Opcode::FloatLessEqual => "FLOAT_LESSEQUAL",
            Opcode::BrandInd => "BRANCHIND",
            Opcode::Int2Comp => "INT_2COMP",
            Opcode::FloatAdd => "FLOAT_ADD",
            Opcode::Call => "CALL",
            Opcode::IntNegate => "INT_NEGATE",
            Opcode::FloatSub => "FLOAT_SUB",
            Opcode::CallInd => "CALLIND",
            Opcode::IntXor => "INT_XOR",
            Opcode::FloatMult => "FLOAT_MULT",
            Opcode::UserDefined => "USERDEFINED",
            Opcode::IntAnd => "INT_AND",
            Opcode::FloatDIV => "FLOAT_DIV",
            Opcode::Return => "RETURN",
            Opcode::IntOr => "INT_OR",
            Opcode::FloatNeg => "FLOAT_NEG",
            Opcode::Piece => "PIECE",
            Opcode::IntLeft => "INT_LEFT",
            Opcode::FloatAbs => "FLOAT_ABS",
            Opcode::Subpiece => "SUBPIECE",
            Opcode::IntRight => "INT_RIGHT",
            Opcode::FloatSqrt => "FLOAT_SQRT",
            Opcode::IntEqual => "INT_EQUAL",
            Opcode::IntSright => "INT_SRIGHT",
            Opcode::FloatCell => "FLOAT_CEIL",
            Opcode::IntNotEqual => "INT_NOTEQUAL",
            Opcode::IntMult => "INT_MULT",
            Opcode::FloatFloor => "FLOAT_FLOOR",
            Opcode::IntLess => "INT_LESS",
            Opcode::IntDiv => "INT_DIV",
            Opcode::FloatRound => "FLOAT_ROUND",
            Opcode::IntSLess => "INT_SLESS",
            Opcode::IntRem => "INT_REM",
            Opcode::FloatNaN => "FLOAT_NAN",
            Opcode::IntLessEqual => "INT_LESSEQUAL",
            Opcode::IntSdiv => "INT_SDIV",
            Opcode::Int2Float => "INT2FLOAT",
            Opcode::IntSLessEqual => "INT_SLESSEQUAL",
            Opcode::IntSRem => "INT_SREM",
            Opcode::Float2Float => "FLOAT2FLOAT",
            Opcode::IntZExt => "INT_ZEXT",
            Opcode::BoolNegate => "BOOL_NEGATE",
            Opcode::Trunc => "TRUNC",
            Opcode::IntSExt => "INT_SEXT",
            Opcode::BoolXor => "BOOL_XOR",
            Opcode::CPoolRef => "CPOOLREF",
            Opcode::BoolAnd => "BOOL_AND",
            Opcode::New => "NEW",
            Opcode::CallOther => "CALLOTHER",
        }
    }
}

/// Operand width in bytes.
#[derive(Clone, Copy, Debug, PartialEq, Eq, Structural, Hash)]
pub enum Size {
    Byte,
    Half,
    Word,
    Quad,
}

/// The number of bytes that `s` stands for.
pub open spec fn size_bytes(s: Size) -> nat {
    match s {
        Size::Byte => 1,
        Size::Half => 2,
        Size::Word => 4,
        Size::Quad => 8,
    }
}

/// Sizes are ordered by width.
pub open spec fn size_order(a: Size, b: Size) -> core::cmp::Ordering {
    if size_bytes(a) < size_bytes(b) {
        core::cmp::Ordering::Less
    } else if size_bytes(a) == size_bytes(b) {
        core::cmp::Ordering::Equal
    } else {
        core::cmp::Ordering::Greater
    }
}

impl Size {
    /// The number of bytes this size stands for.
    pub fn bytes(&self) -> (r: u8)
        ensures
            r as nat == size_bytes(*self),
    {
        match self {
            Size::Byte => 1,
            Size::Half => 2,
            Size::Word => 4,
            Size::Quad => 8,
        }
    }
}

impl PartialOrd for Size {
    fn partial_cmp(&self, other: &Size) -> (r: Option<core::cmp::Ordering>)
        ensures
            r == Some(size_order(*self, *other)),
    {
        let a = self.bytes();
        let b = other.bytes();
        if a < b {
            Some(core::cmp::Ordering::Less)
        } else if a == b {
            Some(core::cmp::Ordering::Equal)
        } else {
            Some(core::cmp::Ordering::Greater)
        }
    }
}

impl vstd::std_specs::cmp::PartialOrdSpecImpl for Size {
    open spec fn obeys_partial_cmp_spec() -> bool {
        true
    }

    open spec fn partial_cmp_spec(&self, other: &Size) -> Option<core::cmp::Ordering> {
        Some(size_order(*self, *other))
    }
}

/// The location an operand names.
///
/// A constant keeps its literal text as written; the other kinds carry an address.
#[derive(Clone, Debug, Eq, Hash)]
pub enum Var {
    Const(String),
    Unique(Addr),
    Register(Addr),
    Memory(Addr),
}

/// The mathematical model of a [`Var`].
pub enum VarView {
    Const(Seq<char>),
    Unique(Addr),
    Register(Addr),
    Memory(Addr),
}

impl View for Var {
    type V = VarView;

    open spec fn view(&self) -> VarView {
        match self {
            Var::Const(s) => VarView::Const(s@),
            Var::Unique(a) => VarView::Unique(*a),
            Var::Register(a) => VarView::Register(*a),
            Var::Memory(a) => VarView::Memory(*a),
        }
    }
}

/// Two locations are equal exactly when they have the same kind and the same
/// literal or address.
impl PartialEq for Var {
    fn eq(&self, other: &Var) -> (r: bool)
        ensures
            r == (self@ == other@),
    {
        match (self, other) {
            (Var::Const(a), Var::Const(b)) => a.eq(b),
            (Var::Unique(a), Var::Unique(b)) => a == b,
            (Var::Register(a), Var::Register(b)) => a == b,
            (Var::Memory(a), Var::Memory(b)) => a == b,
            _ => false,
        }
    }
}

impl vstd::std_specs::cmp::PartialEqSpecImpl for Var {
    open spec fn obeys_eq_spec() -> bool {
        true
    }

    open spec fn eq_spec(&self, other: &Var) -> bool {
        self@ == other@
    }
}

/// An operand: a location together with its width.
#[derive(Clone, Debug, PartialEq, Eq, Hash)]
pub struct Varnode {
    pub var: Var,
    pub size: Size,
}

/// The mathematical model of a [`Varnode`].
pub struct VarnodeView {
    pub var: VarView,
    pub size: Size,
}

impl View for Varnode {
    type V = VarnodeView;

    open spec fn view(&self) -> VarnodeView {
        VarnodeView { var: self.var@, size: self.size }
    }
}

/// One parsed instruction: its opcode, optional output and ordered inputs.
#[derive(Clone, Debug, PartialEq, Eq, Hash)]
pub struct Inst {
    pub opcode: Opcode,
    pub output: Option<Varnode>,
    pub inputs: Vec<Varnode>,
}

/// The mathematical model of an [`Inst`].
pub struct InstView {
    pub opcode: Opcode,
    pub output: Option<VarnodeView>,
    pub inputs: Seq<VarnodeView>,
}

pub open spec fn option_varnode_view(o: Option<Varnode>) -> Option<VarnodeView> {
    match o {
        Some(v) => Some(v@),
        None => None,
    }
}

pub open spec fn varnodes_view(vs: Seq<Varnode>) -> Seq<VarnodeView> {
    vs.map_values(|v: Varnode| v@)
}

impl View for Inst {
    type V = InstView;

    open spec fn view(&self) -> InstView {
        InstView {
            opcode: self.opcode,
            output: option_varnode_view(self.output),
            inputs: varnodes_view(self.inputs@),
        }
    }
}

/// Why a line failed to parse; each variant carries the offending text or opcode.
#[derive(Clone, Debug, PartialEq, Eq)]
pub enum ParseError {
    /// The line or an operand does not have the shape the grammar asks for.
    MalformedLine(String),
    /// An operand's kind is not one of `unique`, `const`, `register`, `memory`.
    UnknownVarnodeKind(String),
    /// A non-constant operand's address is not a decimal or `0x` hexadecimal `u32`.
    InvalidAddress(String),
    /// An operand's size is not one of `1`, `2`, `4`, `8`.
    UnsupportedSize(String),
    /// The mnemonic names no opcode.
    UnknownOpcode(String),
    /// The presence or absence of an output disagrees with the opcode. Reserved
    /// for a per-opcode output table; no such table is defined, so the parser
    /// never returns it.
    ArityMismatch(Opcode),
}

/// The mathematical model of a [`ParseError`].
pub enum ParseErrorView {
    MalformedLine(Seq<char>),
    UnknownVarnodeKind(Seq<char>),
    InvalidAddress(Seq<char>),
    UnsupportedSize(Seq<char>),
    UnknownOpcode(Seq<char>),
    ArityMismatch(Opcode),
}

impl View for ParseError {
    type V = ParseErrorView;

    open spec fn view(&self) -> ParseErrorView {
        match self {
            ParseError::MalformedLine(s) => ParseErrorView::MalformedLine(s@),
            ParseError::UnknownVarnodeKind(s) => ParseErrorView::UnknownVarnodeKind(s@),
            ParseError::InvalidAddress(s) => ParseErrorView::InvalidAddress(s@),
            ParseError::UnsupportedSize(s) => ParseErrorView::UnsupportedSize(s@),
            ParseError::UnknownOpcode(s) => ParseErrorView::UnknownOpcode(s@),
            ParseError::ArityMismatch(op) => ParseErrorView::ArityMismatch(*op),
        }
    }
}

pub open spec fn result_view<T: View>(r: Result<T, ParseError>) -> Result<T::V, ParseErrorView> {
    match r {
        Ok(v) => Ok(v@),
        Err(e) => Err(e@),
    }
}

} // verus!
