//! The grammar of one listing line:
//! `[<varnode> = ]<MNEMONIC> [<varnode> ...]`, where a varnode is written
//! `(<kind>,<address-or-literal>,<size>)`.
use vstd::prelude::*;
use crate::ir::{
    lemma_mnemonic_injective, mnemonic_text, option_varnode_view, result_view, varnodes_view, opcode_named, Addr, Inst, InstView, Opcode, ParseError, ParseErrorView, Size,
    Var, VarView, Varnode, VarnodeView,
};
use crate::text::{
    chars_of, fields, has_no_paren, span_has_no_paren, numeral_value, parse_numeral, spans_text, spans_within,
    split_fields, split_words, words,
};

verus! {

/// The address that `t` spells: `0x`/`0X` followed by hexadecimal digits, or
/// decimal digits, with a value that fits in 32 bits.
pub open spec fn address_of(t: Seq<char>) -> Option<Addr> {
    if t.len() > 2 && t[0] == '0' && (t[1] == 'x' || t[1] == 'X') {
        numeral_value(t.skip(2), 16)
    } else if t.len() > 0 {
        numeral_value(t, 10)
    } else {
        None
    }
}

/// The size that `t` spells: exactly `1`, `2`, `4` or `8`.
pub open spec fn size_of_text(t: Seq<char>) -> Option<Size> {
    if t.len() != 1 {
        None
    } else if t[0] == '1' {
        Some(Size::Byte)
    } else if t[0] == '2' {
        Some(Size::Half)
    } else if t[0] == '4' {
        Some(Size::Word)
    } else if t[0] == '8' {
        Some(Size::Quad)
    } else {
        None
    }
}

pub open spec fn is_kind_name(k: Seq<char>) -> bool {
    k == "const"@ || k == "unique"@ || k == "register"@ || k == "memory"@
}

/// The location named by kind `k` and address field `a`.
pub open spec fn var_of(k: Seq<char>, a: Seq<char>) -> Result<VarView, ParseErrorView> {
    if k == "const"@ {
        Ok(VarView::Const(a))
    } else if !is_kind_name(k) {
        Err(ParseErrorView::UnknownVarnodeKind(k))
    } else {
        match address_of(a) {
            None => Err(ParseErrorView::InvalidAddress(a)),
            Some(x) => Ok(
                if k == "unique"@ {
                    VarView::Unique(x)
                } else if k == "register"@ {
                    VarView::Register(x)
                } else {
                    VarView::Memory(x)
                },
            ),
        }
    }
}

/// Whether `t` has the outer shape of an operand: one pair of parentheses
/// around exactly three comma-separated fields, none of which holds a
/// parenthesis.
pub open spec fn operand_shaped(t: Seq<char>) -> bool {
    &&& t.len() >= 2
    &&& t[0] == '('
    &&& t[t.len() - 1] == ')'
    &&& fields(t.subrange(1, t.len() - 1)).len() == 3
    &&& has_no_paren(fields(t.subrange(1, t.len() - 1))[0])
    &&& has_no_paren(fields(t.subrange(1, t.len() - 1))[1])
    &&& has_no_paren(fields(t.subrange(1, t.len() - 1))[2])
}

/// The three fields of an operand-shaped token.
pub open spec fn operand_fields(t: Seq<char>) -> Seq<Seq<char>> {
    fields(t.subrange(1, t.len() - 1))
}

/// The operand that token `t` spells; the kind is checked before the address,
/// the address before the size.
pub open spec fn varnode_of(t: Seq<char>) -> Result<VarnodeView, ParseErrorView> {
    if !operand_shaped(t) {
        Err(ParseErrorView::MalformedLine(t))
    } else {
        let f = operand_fields(t);
        match var_of(f[0], f[1]) {
            Err(e) => Err(e),
            Ok(v) => match size_of_text(f[2]) {
                None => Err(ParseErrorView::UnsupportedSize(f[2])),
                Some(z) => Ok(VarnodeView { var: v, size: z }),
            },
        }
    }
}

/// The operands that the tokens `ts` spell, or the first failure among them.
pub open spec fn varnodes_of(ts: Seq<Seq<char>>) -> Result<Seq<VarnodeView>, ParseErrorView>
    decreases ts.len(),
{
    if ts.len() == 0 {
        Ok(Seq::empty())
    } else {
        match varnode_of(ts[0]) {
            Err(e) => Err(e),
            Ok(v) => match varnodes_of(ts.drop_first()) {
                Err(e) => Err(e),
                Ok(vs) => Ok(seq![v] + vs),
            },
        }
    }
}

/// The instruction made of output `out` and the tokens `rest` (mnemonic, then
/// inputs) of line `line`.
pub open spec fn assemble(out: Option<VarnodeView>, rest: Seq<Seq<char>>, line: Seq<char>) -> Result<
    InstView,
    ParseErrorView,
> {
    if rest.len() == 0 {
        Err(ParseErrorView::MalformedLine(line))
    } else {
        match opcode_named(rest[0]) {
            None => Err(ParseErrorView::UnknownOpcode(rest[0])),
            Some(op) => match varnodes_of(rest.drop_first()) {
                Err(e) => Err(e),
                Ok(ins) => Ok(InstView { opcode: op, output: out, inputs: ins }),
            },
        }
    }
}

/// Whether the words of a line begin with an output assignment `<varnode> =`.
pub open spec fn has_assignment(ws: Seq<Seq<char>>) -> bool {
    ws.len() >= 2 && ws[1] == seq!['=']
}

/// The instruction that `line` spells, or the first failure met while reading
/// it from left to right.
pub open spec fn inst_of(line: Seq<char>) -> Result<InstView, ParseErrorView> {
    let ws = words(line);
    if has_assignment(ws) {
        match varnode_of(ws[0]) {
            Err(e) => Err(e),
            Ok(out) => assemble(Some(out), ws.skip(2), line),
        }
    } else {
        assemble(None, ws, line)
    }
}

/// Whether `s[lo..hi]` is exactly the text `lit`.
pub fn span_is(s: &Vec<char>, lo: usize, hi: usize, lit: &str) -> (r: bool)
    requires
        lo <= hi <= s@.len(),
    ensures
        r == (s@.subrange(lo as int, hi as int) == lit@),
{
    let n = lit.unicode_len();
    if hi - lo != n {
        return false;
    }
    let mut k: usize = 0;
    while k < n
        invariant
            n == lit@.len(),
            hi - lo == n,
            lo <= hi <= s@.len(),
            k <= n,
            forall|m: int| 0 <= m < k ==> s@[lo + m] == lit@[m],
        decreases n - k,
    {
        if s[lo + k] != lit.get_char(k) {
            assert(s@.subrange(lo as int, hi as int)[k as int] != lit@[k as int]);
            return false;
        }
        k = k + 1;
    }
    assert(s@.subrange(lo as int, hi as int) =~= lit@);
    true
}

/// A copy of the characters `lo..hi` of `line`.
pub fn span_string(line: &str, lo: usize, hi: usize) -> (r: String)
    requires
        lo <= hi <= line@.len(),
    ensures
        r@ == line@.subrange(lo as int, hi as int),
{
    line.substring_char(lo, hi).to_owned()
}

/// The opcode that `s[lo..hi]` spells, if any.
pub fn opcode_in_span(s: &Vec<char>, lo: usize, hi: usize) -> (r: Option<Opcode>)
    requires
        lo <= hi <= s@.len(),
    ensures
        r == opcode_named(s@.subrange(lo as int, hi as int)),
{
    let ghost t = s@.subrange(lo as int, hi as int);
    let r =
    if span_is(s, lo, hi, "COPY") {
        Some(Opcode::Copy)
    } else if span_is(s, lo, hi, "INT_ADD") {
        Some(Opcode::IntAdd)
    } else if span_is(s, lo, hi, "BOOL_OR") {
        Some(Opcode::BoolOr)
    } else if span_is(s, lo, hi, "LOAD") {
        Some(Opcode::Load)
    } else if span_is(s, lo, hi, "INT_SUB") {
        Some(Opcode::IntSub)
    } else if span_is(s, lo, hi, "FLOAT_EQUAL") {
        Some(Opcode::FloatEqual)
    } else if span_is(s, lo, hi, "STORE") {
        Some(Opcode::Store)
    } else if span_is(s, lo, hi, "INT_CARRY") {
        Some(Opcode::IntCarry)
    } else if span_is(s, lo, hi, "FLOAT_NOTEQUAL") {
        Some(Opcode::FloatNotEqual)
    } else if span_is(s, lo, hi, "BRANCH") {
        Some(Opcode::Branch)
    } else if span_is(s, lo, hi, "INT_SCARRY") {
        Some(Opcode::IntSCarry)
    } else if span_is(s, lo, hi, "FLOAT_LESS") {
        Some(Opcode::FloatLess)
    } else if span_is(s, lo, hi, "CBRANCH") {
        Some(Opcode::CBranch)
    } else if span_is(s, lo, hi, "INT_SBORROW") {
        Some(Opcode::IntSBorrow)
    } else if span_is(s, lo, hi, "FLOAT_LESSEQUAL") {
        Some(Opcode::FloatLessEqual)
    } else if span_is(s, lo, hi, "BRANCHIND") {
        Some(Opcode::BrandInd)
    } else if span_is(s, lo, hi, "INT_2COMP") {
        Some(Opcode::Int2Comp)
    } else if span_is(s, lo, hi, "FLOAT_ADD") {
        Some(Opcode::FloatAdd)
    } else if span_is(s, lo, hi, "CALL") {
        Some(Opcode::Call)
    } else if span_is(s, lo, hi, "INT_NEGATE") {
        Some(Opcode::IntNegate)
    } else if span_is(s, lo, hi, "FLOAT_SUB") {
        Some(Opcode::FloatSub)
    } else if span_is(s, lo, hi, "CALLIND") {
        Some(Opcode::CallInd)
    } else if span_is(s, lo, hi, "INT_XOR") {
        Some(Opcode::IntXor)
    } else if span_is(s, lo, hi, "FLOAT_MULT") {
        Some(Opcode::FloatMult)
    } else if span_is(s, lo, hi, "USERDEFINED") {
        Some(Opcode::UserDefined)
    } else if span_is(s, lo, hi, "INT_AND") {
        Some(Opcode::IntAnd)
    } else if span_is(s, lo, hi, "FLOAT_DIV") {
        Some(Opcode::FloatDIV)
    } else if span_is(s, lo, hi, "RETURN") {
        Some(Opcode::Return)
    } else if span_is(s, lo, hi, "INT_OR") {
        Some(Opcode::IntOr)
    } else if span_is(s, lo, hi, "FLOAT_NEG") {
        Some(Opcode::FloatNeg)
    } else if span_is(s, lo, hi, "PIECE") {
        Some(Opcode::Piece)
    } else if span_is(s, lo, hi, "INT_LEFT") {
        Some(Opcode::IntLeft)
    } else if span_is(s, lo, hi, "FLOAT_ABS") {
        Some(Opcode::FloatAbs)
    } else if span_is(s, lo, hi, "SUBPIECE") {
        Some(Opcode::Subpiece)
    } else if span_is(s, lo, hi, "INT_RIGHT") {
        Some(Opcode::IntRight)
    } else if span_is(s, lo, hi, "FLOAT_SQRT") {
        Some(Opcode::FloatSqrt)
    } else if span_is(s, lo, hi, "INT_EQUAL") {
        Some(Opcode::IntEqual)
    } else if span_is(s, lo, hi, "INT_SRIGHT") {
        Some(Opcode::IntSright)
    } else if span_is(s, lo, hi, "FLOAT_CEIL") {
        Some(Opcode::FloatCell)
    } else if span_is(s, lo, hi, "INT_NOTEQUAL") {
        Some(Opcode::IntNotEqual)
    } else if span_is(s, lo, hi, "INT_MULT") {
        Some(Opcode::IntMult)
    } else if span_is(s, lo, hi, "FLOAT_FLOOR") {
        Some(Opcode::FloatFloor)
    } else if span_is(s, lo, hi, "INT_LESS") {
        Some(Opcode::IntLess)
    } else if span_is(s, lo, hi, "INT_DIV") {
        Some(Opcode::IntDiv)
    } else if span_is(s, lo, hi, "FLOAT_ROUND") {
        Some(Opcode::FloatRound)
    } else if span_is(s, lo, hi, "INT_SLESS") {
        Some(Opcode::IntSLess)
    } else if span_is(s, lo, hi, "INT_REM") {
        Some(Opcode::IntRem)
    } else if span_is(s, lo, hi, "FLOAT_NAN") {
        Some(Opcode::FloatNaN)
    } else if span_is(s, lo, hi, "INT_LESSEQUAL") {
        Some(Opcode::IntLessEqual)
    } else if span_is(s, lo, hi, "INT_SDIV") {
        Some(Opcode::IntSdiv)
    } else if span_is(s, lo, hi, "INT2FLOAT") {
        Some(Opcode::Int2Float)
    } else if span_is(s, lo, hi, "INT_SLESSEQUAL") {
        Some(Opcode::IntSLessEqual)
    } else if span_is(s, lo, hi, "INT_SREM") {
        Some(Opcode::IntSRem)
    } else if span_is(s, lo, hi, "FLOAT2FLOAT") {
        Some(Opcode::Float2Float)
    } else if span_is(s, lo, hi, "INT_ZEXT") {
        Some(Opcode::IntZExt)
    } else if span_is(s, lo, hi, "BOOL_NEGATE") {
        Some(Opcode::BoolNegate)
    } else if span_is(s, lo, hi, "TRUNC") {
        Some(Opcode::Trunc)
    } else if span_is(s, lo, hi, "INT_SEXT") {
        Some(Opcode::IntSExt)
    } else if span_is(s, lo, hi, "BOOL_XOR") {
        Some(Opcode::BoolXor)
    } else if span_is(s, lo, hi, "CPOOLREF") {
        Some(Opcode::CPoolRef)
    } else if span_is(s, lo, hi, "BOOL_AND") {
        Some(Opcode::BoolAnd)
    } else if span_is(s, lo, hi, "NEW") {
        Some(Opcode::New)
    } else if span_is(s, lo, hi, "CALLOTHER") {
        Some(Opcode::CallOther)
    } else {
        None
    };
    proof {
        if let Some(op) = r {
            assert(mnemonic_text(op) == t);
            let c = choose|c: Opcode| mnemonic_text(c) == t;
            lemma_mnemonic_injective(c, op);
        } else {
            assert forall|op: Opcode| mnemonic_text(op) != t by {}
        }
    }
    r
}

/// The address that `s[lo..hi]` spells.
pub fn parse_address(s: &Vec<char>, lo: usize, hi: usize) -> (r: Option<Addr>)
    requires
        lo <= hi <= s@.len(),
    ensures
        r == address_of(s@.subrange(lo as int, hi as int)),
{
    let ghost t = s@.subrange(lo as int, hi as int);
    if hi - lo > 2 && s[lo] == '0' && (s[lo + 1] == 'x' || s[lo + 1] == 'X') {
        assert(t.skip(2) =~= s@.subrange(lo + 2, hi as int));
        parse_numeral(s, lo + 2, hi, 16)
    } else if hi - lo > 0 {
        parse_numeral(s, lo, hi, 10)
    } else {
        None
    }
}

/// The size that `s[lo..hi]` spells.
pub fn parse_size(s: &Vec<char>, lo: usize, hi: usize) -> (r: Option<Size>)
    requires
        lo <= hi <= s@.len(),
    ensures
        r == size_of_text(s@.subrange(lo as int, hi as int)),
{
    if hi - lo != 1 {
        None
    } else if s[lo] == '1' {
        Some(Size::Byte)
    } else if s[lo] == '2' {
        Some(Size::Half)
    } else if s[lo] == '4' {
        Some(Size::Word)
    } else if s[lo] == '8' {
        Some(Size::Quad)
    } else {
        None
    }
}

/// The operand that the characters `lo..hi` of `line` spell.
fn varnode_in_span(line: &str, s: &Vec<char>, lo: usize, hi: usize) -> (r: Result<Varnode, ParseError>)
    requires
        s@ == line@,
        lo <= hi <= s@.len(),
    ensures
        result_view(r) == varnode_of(s@.subrange(lo as int, hi as int)),
{
    let ghost t = s@.subrange(lo as int, hi as int);
    if !(hi - lo >= 2 && s[lo] == '(' && s[hi - 1] == ')') {
        return Err(ParseError::MalformedLine(span_string(line, lo, hi)));
    }
    assert(t.subrange(1, t.len() - 1) =~= s@.subrange(lo + 1, hi - 1));
    let f = split_fields(s, lo + 1, hi - 1);
    if f.len() != 3 {
        return Err(ParseError::MalformedLine(span_string(line, lo, hi)));
    }
    let (k0, k1) = f[0];
    let (a0, a1) = f[1];
    let (z0, z1) = f[2];
    assert(spans_text(s@, f@)[0] == s@.subrange(k0 as int, k1 as int));
    assert(spans_text(s@, f@)[1] == s@.subrange(a0 as int, a1 as int));
    assert(spans_text(s@, f@)[2] == s@.subrange(z0 as int, z1 as int));
    if !(span_has_no_paren(s, k0, k1) && span_has_no_paren(s, a0, a1) && span_has_no_paren(
        s,
        z0,
        z1,
    )) {
        return Err(ParseError::MalformedLine(span_string(line, lo, hi)));
    }
    let var = if span_is(s, k0, k1, "const") {
        Var::Const(span_string(line, a0, a1))
    } else if span_is(s, k0, k1, "unique") || span_is(s, k0, k1, "register") || span_is(
        s,
        k0,
        k1,
        "memory",
    ) {
        let a = match parse_address(s, a0, a1) {
            Some(a) => a,
            None => {
                return Err(ParseError::InvalidAddress(span_string(line, a0, a1)));
            },
        };
        if span_is(s, k0, k1, "unique") {
            Var::Unique(a)
        } else if span_is(s, k0, k1, "register") {
            Var::Register(a)
        } else {
            Var::Memory(a)
        }
    } else {
        return Err(ParseError::UnknownVarnodeKind(span_string(line, k0, k1)));
    };
    match parse_size(s, z0, z1) {
        Some(size) => Ok(Varnode { var, size }),
        None => Err(ParseError::UnsupportedSize(span_string(line, z0, z1))),
    }
}

/// Reads one operand, `(<kind>,<address-or-literal>,<size>)`.
pub fn parse_varnode(text: &str) -> (r: Result<Varnode, ParseError>)
    ensures
        result_view(r) == varnode_of(text@),
{
    let s = chars_of(text);
    assert(s@.subrange(0, s@.len() as int) =~= s@);
    varnode_in_span(text, &s, 0, s.len())
}

/// `r` with `acc` placed before the operands it holds.
pub open spec fn prefixed(acc: Seq<VarnodeView>, r: Result<Seq<VarnodeView>, ParseErrorView>) -> Result<
    Seq<VarnodeView>,
    ParseErrorView,
> {
    match r {
        Ok(vs) => Ok(acc + vs),
        Err(e) => Err(e),
    }
}

/// Assembles an instruction from `out` and the words of `line` from index `k` on.
fn assemble_words(line: &str, s: &Vec<char>, ws: &Vec<(usize, usize)>, k: usize, out: Option<Varnode>) -> (r: Result<Inst, ParseError>)
    requires
        s@ == line@,
        spans_within(ws@, 0, s@.len() as int),
        k <= ws@.len(),
    ensures
        result_view(r) == assemble(
            option_varnode_view(out),
            spans_text(s@, ws@).skip(k as int),
            line@,
        ),
{
    let ghost w = spans_text(s@, ws@);
    let ghost rest = w.skip(k as int);
    if k == ws.len() {
        return Err(ParseError::MalformedLine(line.to_owned()));
    }
    let (m0, m1) = ws[k];
    assert(ws@[k as int] == (m0, m1));
    assert(rest[0] == s@.subrange(m0 as int, m1 as int));
    let opcode = match opcode_in_span(s, m0, m1) {
        Some(op) => op,
        None => {
            return Err(ParseError::UnknownOpcode(span_string(line, m0, m1)));
        },
    };
    let mut inputs: Vec<Varnode> = Vec::new();
    let mut j: usize = k + 1;
    assert(rest.drop_first() =~= w.skip(j as int));
    assert(varnodes_view(inputs@) =~= Seq::<VarnodeView>::empty());
    assert(prefixed(Seq::empty(), varnodes_of(w.skip(j as int))) == varnodes_of(w.skip(j as int)))
        by {
        match varnodes_of(w.skip(j as int)) {
            Ok(vs) => assert(Seq::<VarnodeView>::empty() + vs =~= vs),
            Err(e) => {},
        }
    }
    while j < ws.len()
        invariant
            s@ == line@,
            spans_within(ws@, 0, s@.len() as int),
            w == spans_text(s@, ws@),
            rest == w.skip(k as int),
            rest.len() > 0,
            opcode_named(rest[0]) == Some(opcode),
            k < j <= ws@.len(),
            varnodes_of(rest.drop_first()) == prefixed(
                varnodes_view(inputs@),
                varnodes_of(w.skip(j as int)),
            ),
        decreases ws@.len() - j,
    {
        let (v0, v1) = ws[j];
        assert(ws@[j as int] == (v0, v1));
        let ghost tail = w.skip(j as int);
        assert(tail[0] == s@.subrange(v0 as int, v1 as int));
        assert(tail.drop_first() =~= w.skip(j + 1));
        match varnode_in_span(line, s, v0, v1) {
            Err(e) => {
                assert(varnodes_of(tail) == Err::<Seq<VarnodeView>, ParseErrorView>(e@));
                return Err(e);
            },
            Ok(v) => {
                let ghost before = varnodes_view(inputs@);
                inputs.push(v);
                assert(varnodes_view(inputs@) =~= before.push(v@));
                proof {
                    match varnodes_of(w.skip(j + 1)) {
                        Ok(vs) => assert(before + (seq![v@] + vs) =~= before.push(v@) + vs),
                        Err(e) => {},
                    }
                }
                j = j + 1;
            },
        }
    }
    assert(w.skip(j as int) =~= Seq::<Seq<char>>::empty());
    assert(varnodes_view(inputs@) + Seq::<VarnodeView>::empty() =~= varnodes_view(inputs@));
    Ok(Inst { opcode, output: out, inputs })
}

/// Reads one line of a listing into an instruction.
///
/// The line is read from left to right (output operand, mnemonic, then inputs)
/// and the first failure met is returned. The output is present exactly when
/// the line starts with `<operand> =`.
pub fn parse_line(line: &str) -> (r: Result<Inst, ParseError>)
    ensures
        result_view(r) == inst_of(line@),
{
    let s = chars_of(line);
    let ws = split_words(&s);
    let ghost w = words(s@);
    if ws.len() >= 2 && ws[1].1 - ws[1].0 == 1 && s[ws[1].0] == '=' {
        assert(w[1] =~= seq!['=']);
        let (o0, o1) = ws[0];
        assert(w[0] == s@.subrange(o0 as int, o1 as int));
        match varnode_in_span(line, &s, o0, o1) {
            Err(e) => Err(e),
            Ok(out) => assemble_words(line, &s, &ws, 2, Some(out)),
        }
    } else {
        assert(!has_assignment(w)) by {
            if ws.len() >= 2 {
                assert(w[1] == s@.subrange(ws@[1].0 as int, ws@[1].1 as int));
                if w[1] == seq!['='] {
                    assert(w[1][0] == '=');
                }
            }
        }
        assert(w.skip(0) =~= w);
        assemble_words(line, &s, &ws, 0, None)
    }
}

/// Whether `t` is an operand the grammar accepts: the right shape, one of the
/// four kinds, an address that reads for kinds other than `const`, and a size
/// of 1, 2, 4 or 8 bytes.
pub open spec fn operand_fits(t: Seq<char>) -> bool {
    &&& operand_shaped(t)
    &&& is_kind_name(operand_fields(t)[0])
    &&& (operand_fields(t)[0] == "const"@ || address_of(operand_fields(t)[1]) is Some)
    &&& size_of_text(operand_fields(t)[2]) is Some
}

/// The words of a line after its optional `<operand> =`: mnemonic, then inputs.
pub open spec fn body_words(ws: Seq<Seq<char>>) -> Seq<Seq<char>> {
    if has_assignment(ws) {
        ws.skip(2)
    } else {
        ws
    }
}

/// Whether `line` fits the line grammar
/// `[<operand> = ]<MNEMONIC> [<operand> ...]`.
pub open spec fn line_fits_grammar(line: Seq<char>) -> bool {
    let ws = words(line);
    let body = body_words(ws);
    &&& has_assignment(ws) ==> operand_fits(ws[0])
    &&& body.len() >= 1
    &&& opcode_named(body[0]) is Some
    &&& forall|k: int| 1 <= k < body.len() ==> operand_fits(#[trigger] body[k])
}

/// An operand that fits the grammar reads without error.
pub proof fn lemma_operand_fits_reads(t: Seq<char>)
    requires
        operand_fits(t),
    ensures
        varnode_of(t) is Ok,
{
}

proof fn lemma_operands_fit_read(ts: Seq<Seq<char>>)
    requires
        forall|k: int| 0 <= k < ts.len() ==> operand_fits(#[trigger] ts[k]),
    ensures
        varnodes_of(ts) is Ok,
        varnodes_of(ts)->Ok_0.len() == ts.len(),
    decreases ts.len(),
{
    if ts.len() > 0 {
        assert(operand_fits(ts[0]));
        lemma_operand_fits_reads(ts[0]);
        let tail = ts.drop_first();
        assert forall|k: int| 0 <= k < tail.len() implies operand_fits(#[trigger] tail[k]) by {
            assert(tail[k] == ts[k + 1]);
        }
        lemma_operands_fit_read(tail);
    }
}

/// Every line that fits the grammar parses. The result has an output exactly
/// when the line starts with `<operand> =`, the opcode its mnemonic names, and
/// one input for each operand after the mnemonic.
pub proof fn lemma_grammar_line_parses(line: Seq<char>)
    requires
        line_fits_grammar(line),
    ensures
        inst_of(line) is Ok,
        (inst_of(line)->Ok_0.output is Some) == has_assignment(words(line)),
        Some(inst_of(line)->Ok_0.opcode) == opcode_named(body_words(words(line))[0]),
        inst_of(line)->Ok_0.inputs.len() + 1 == body_words(words(line)).len(),
{
    let ws = words(line);
    let body = body_words(ws);
    if has_assignment(ws) {
        lemma_operand_fits_reads(ws[0]);
    }
    let ins = body.drop_first();
    assert forall|k: int| 0 <= k < ins.len() implies operand_fits(#[trigger] ins[k]) by {
        assert(ins[k] == body[k + 1]);
    }
    lemma_operands_fit_read(ins);
    assert(ws.skip(0) =~= ws);
}

impl core::str::FromStr for Inst {
    type Err = ParseError;

    /// Same as [`parse_line`].
    fn from_str(line: &str) -> Result<Inst, ParseError> {
        parse_line(line)
    }
}

} // verus!
