//! The canonical text of an instruction, and the law that reading it back
//! yields the same instruction.
use vstd::prelude::*;
use crate::ir::{
    lemma_opcode_named_mnemonic, mnemonic_text, opcode_named, Inst, InstView, ParseErrorView, Size,
    Var, VarView, Varnode, VarnodeView,
};
use crate::parse::{
    address_of, body_words, has_assignment, lemma_operand_fits_reads, operand_fits, inst_of, is_kind_name, operand_fields, operand_shaped,
    size_of_text, var_of, varnode_of, varnodes_of,
};
use crate::text::{
    all_digits_in, digit_value, digits_value, field_len, fields, has_no_paren, is_blank, is_hex_digit, word_len,
    words,
};

verus! {

pub open spec fn has_no_blank(t: Seq<char>) -> bool {
    forall|i: int| 0 <= i < t.len() ==> !is_blank(#[trigger] t[i])
}

pub open spec fn has_no_comma(t: Seq<char>) -> bool {
    forall|i: int| 0 <= i < t.len() ==> #[trigger] t[i] != ','
}

/// The lower-case hexadecimal digit of `d` (below 16).
pub open spec fn hex_char(d: nat) -> char {
    if d == 0 { '0' } else if d == 1 { '1' } else if d == 2 { '2' } else if d == 3 { '3' }
    else if d == 4 { '4' } else if d == 5 { '5' } else if d == 6 { '6' } else if d == 7 { '7' }
    else if d == 8 { '8' } else if d == 9 { '9' } else if d == 10 { 'a' } else if d == 11 { 'b' }
    else if d == 12 { 'c' } else if d == 13 { 'd' } else if d == 14 { 'e' } else { 'f' }
}

/// The hexadecimal digits of `n`, without leading zeros.
pub open spec fn hex_text(n: nat) -> Seq<char>
    decreases n,
{
    if n < 16 {
        seq![hex_char(n)]
    } else {
        hex_text(n / 16).push(hex_char(n % 16))
    }
}

pub open spec fn kind_text(v: VarView) -> Seq<char> {
    match v {
        VarView::Const(_) => "const"@,
        VarView::Unique(_) => "unique"@,
        VarView::Register(_) => "register"@,
        VarView::Memory(_) => "memory"@,
    }
}

/// A constant's literal as it stands; an address as `0x` and hexadecimal digits.
pub open spec fn location_text(v: VarView) -> Seq<char> {
    match v {
        VarView::Const(s) => s,
        VarView::Unique(a) => seq!['0', 'x'] + hex_text(a as nat),
        VarView::Register(a) => seq!['0', 'x'] + hex_text(a as nat),
        VarView::Memory(a) => seq!['0', 'x'] + hex_text(a as nat),
    }
}

pub open spec fn size_text(z: Size) -> Seq<char> {
    match z {
        Size::Byte => seq!['1'],
        Size::Half => seq!['2'],
        Size::Word => seq!['4'],
        Size::Quad => seq!['8'],
    }
}

/// `(<k>,<a>,<z>)`.
pub open spec fn operand_text(k: Seq<char>, a: Seq<char>, z: Seq<char>) -> Seq<char> {
    seq!['('] + (k + (seq![','] + (a + (seq![','] + (z + seq![')'])))))
}

/// `(<kind>,<location>,<size>)`.
pub open spec fn varnode_text(n: VarnodeView) -> Seq<char> {
    operand_text(kind_text(n.var), location_text(n.var), size_text(n.size))
}

/// The words of the canonical line of `i`.
pub open spec fn inst_words(i: InstView) -> Seq<Seq<char>> {
    let head = match i.output {
        Some(o) => seq![varnode_text(o), seq!['=']],
        None => Seq::empty(),
    };
    head + seq![mnemonic_text(i.opcode)] + i.inputs.map_values(|n: VarnodeView| varnode_text(n))
}

/// `ts` joined by single spaces.
pub open spec fn joined(ts: Seq<Seq<char>>) -> Seq<char>
    decreases ts.len(),
{
    if ts.len() == 0 {
        Seq::empty()
    } else if ts.len() == 1 {
        ts[0]
    } else {
        ts[0] + (seq![' '] + joined(ts.drop_first()))
    }
}

/// The canonical line of `i`: `[<output> = ]<MNEMONIC>[ <input>]*`.
pub open spec fn inst_text(i: InstView) -> Seq<char> {
    joined(inst_words(i))
}

/// A location can be written out: a constant's literal holds no blank, no comma
/// and no parenthesis.
pub open spec fn var_renders(v: VarView) -> bool {
    match v {
        VarView::Const(s) => has_no_blank(s) && has_no_comma(s) && has_no_paren(s),
        _ => true,
    }
}

/// An instruction can be written out and read back: its literals can be written.
pub open spec fn inst_renders(i: InstView) -> bool {
    &&& (i.output matches Some(o) ==> var_renders(o.var))
    &&& forall|k: int| 0 <= k < i.inputs.len() ==> var_renders(#[trigger] i.inputs[k].var)
}

proof fn lemma_hex_char(d: nat)
    requires
        d < 16,
    ensures
        is_hex_digit(hex_char(d)),
        digit_value(hex_char(d)) == d,
{
}

proof fn lemma_hex_text(n: nat)
    ensures
        hex_text(n).len() > 0,
        all_digits_in(hex_text(n), 16),
        digits_value(hex_text(n), 16) == n,
    decreases n,
{
    lemma_hex_char(n % 16);
    if n < 16 {
        let t = hex_text(n);
        assert(t.drop_last() =~= Seq::<char>::empty());
        assert(t.last() == hex_char(n));
        assert(digits_value(t, 16) == digits_value(t.drop_last(), 16) * 16 + digit_value(t.last()));
    } else {
        lemma_hex_text(n / 16);
        let t = hex_text(n);
        assert(n == (n / 16) * 16 + n % 16);
        assert(t.last() == hex_char(n % 16));
        assert(digits_value(t, 16) == digits_value(t.drop_last(), 16) * 16 + digit_value(t.last()));
        assert(t.drop_last() =~= hex_text(n / 16));
        assert(all_digits_in(t, 16)) by {
            assert forall|i: int| 0 <= i < t.len() implies is_hex_digit(#[trigger] t[i]) by {
                if i < t.len() - 1 {
                    assert(t[i] == hex_text(n / 16)[i]);
                }
            }
        }
    }
}

proof fn lemma_mnemonic_plain(op: crate::ir::Opcode)
    ensures
        mnemonic_text(op).len() > 0,
        has_no_blank(mnemonic_text(op)),
{
    match op {
        crate::ir::Opcode::Copy => {
            reveal_strlit("COPY");
        },
        crate::ir::Opcode::IntAdd => {
            reveal_strlit("INT_ADD");
        },
        crate::ir::Opcode::BoolOr => {
            reveal_strlit("BOOL_OR");
        },
        crate::ir::Opcode::Load => {
            reveal_strlit("LOAD");
        },
        crate::ir::Opcode::IntSub => {
            reveal_strlit("INT_SUB");
        },
        crate::ir::Opcode::FloatEqual => {
            reveal_strlit("FLOAT_EQUAL");
        },
        crate::ir::Opcode::Store => {
            reveal_strlit("STORE");
        },
        crate::ir::Opcode::IntCarry => {
            reveal_strlit("INT_CARRY");
        },
        crate::ir::Opcode::FloatNotEqual => {
            reveal_strlit("FLOAT_NOTEQUAL");
        },
        crate::ir::Opcode::Branch => {
            reveal_strlit("BRANCH");
        },
        crate::ir::Opcode::IntSCarry => {
            reveal_strlit("INT_SCARRY");
        },
        crate::ir::Opcode::FloatLess => {
            reveal_strlit("FLOAT_LESS");
        },
        crate::ir::Opcode::CBranch => {
            reveal_strlit("CBRANCH");
        },
        crate::ir::Opcode::IntSBorrow => {
            reveal_strlit("INT_SBORROW");
        },
        crate::ir::Opcode::FloatLessEqual => {
            reveal_strlit("FLOAT_LESSEQUAL");
        },
        crate::ir::Opcode::BrandInd => {
            reveal_strlit("BRANCHIND");
        },
        crate::ir::Opcode::Int2Comp => {
            reveal_strlit("INT_2COMP");
        },
        crate::ir::Opcode::FloatAdd => {
            reveal_strlit("FLOAT_ADD");
        },
        crate::ir::Opcode::Call => {
            reveal_strlit("CALL");
        },
        crate::ir::Opcode::IntNegate => {
            reveal_strlit("INT_NEGATE");
        },
        crate::ir::Opcode::FloatSub => {
            reveal_strlit("FLOAT_SUB");
        },
        crate::ir::Opcode::CallInd => {
            reveal_strlit("CALLIND");
        },
        crate::ir::Opcode::IntXor => {
            reveal_strlit("INT_XOR");
        },
        crate::ir::Opcode::FloatMult => {
            reveal_strlit("FLOAT_MULT");
        },
        crate::ir::Opcode::UserDefined => {
            reveal_strlit("USERDEFINED");
        },
        crate::ir::Opcode::IntAnd => {
            reveal_strlit("INT_AND");
        },
        crate::ir::Opcode::FloatDIV => {
            reveal_strlit("FLOAT_DIV");
        },
        crate::ir::Opcode::Return => {
            reveal_strlit("RETURN");
        },
        crate::ir::Opcode::IntOr => {
            reveal_strlit("INT_OR");
        },
        crate::ir::Opcode::FloatNeg => {
            reveal_strlit("FLOAT_NEG");
        },
        crate::ir::Opcode::Piece => {
            reveal_strlit("PIECE");
        },
        crate::ir::Opcode::IntLeft => {
            reveal_strlit("INT_LEFT");
        },
        crate::ir::Opcode::FloatAbs => {
            reveal_strlit("FLOAT_ABS");
        },
        crate::ir::Opcode::Subpiece => {
            reveal_strlit("SUBPIECE");
        },
        crate::ir::Opcode::IntRight => {
            reveal_strlit("INT_RIGHT");
        },
        crate::ir::Opcode::FloatSqrt => {
            reveal_strlit("FLOAT_SQRT");
        },
        crate::ir::Opcode::IntEqual => {
            reveal_strlit("INT_EQUAL");
        },
        crate::ir::Opcode::IntSright => {
            reveal_strlit("INT_SRIGHT");
        },
        crate::ir::Opcode::FloatCell => {
            reveal_strlit("FLOAT_CEIL");
        },
        crate::ir::Opcode::IntNotEqual => {
            reveal_strlit("INT_NOTEQUAL");
        },
        crate::ir::Opcode::IntMult => {
            reveal_strlit("INT_MULT");
        },
        crate::ir::Opcode::FloatFloor => {
            reveal_strlit("FLOAT_FLOOR");
        },
        crate::ir::Opcode::IntLess => {
            reveal_strlit("INT_LESS");
        },
        crate::ir::Opcode::IntDiv => {
            reveal_strlit("INT_DIV");
        },
        crate::ir::Opcode::FloatRound => {
            reveal_strlit("FLOAT_ROUND");
        },
        crate::ir::Opcode::IntSLess => {
            reveal_strlit("INT_SLESS");
        },
        crate::ir::Opcode::IntRem => {
            reveal_strlit("INT_REM");
        },
        crate::ir::Opcode::FloatNaN => {
            reveal_strlit("FLOAT_NAN");
        },
        crate::ir::Opcode::IntLessEqual => {
            reveal_strlit("INT_LESSEQUAL");
        },
        crate::ir::Opcode::IntSdiv => {
            reveal_strlit("INT_SDIV");
        },
        crate::ir::Opcode::Int2Float => {
            reveal_strlit("INT2FLOAT");
        },
        crate::ir::Opcode::IntSLessEqual => {
            reveal_strlit("INT_SLESSEQUAL");
        },
        crate::ir::Opcode::IntSRem => {
            reveal_strlit("INT_SREM");
        },
        crate::ir::Opcode::Float2Float => {
            reveal_strlit("FLOAT2FLOAT");
        },
        crate::ir::Opcode::IntZExt => {
            reveal_strlit("INT_ZEXT");
        },
        crate::ir::Opcode::BoolNegate => {
            reveal_strlit("BOOL_NEGATE");
        },
        crate::ir::Opcode::Trunc => {
            reveal_strlit("TRUNC");
        },
        crate::ir::Opcode::IntSExt => {
            reveal_strlit("INT_SEXT");
        },
        crate::ir::Opcode::BoolXor => {
            reveal_strlit("BOOL_XOR");
        },
        crate::ir::Opcode::CPoolRef => {
            reveal_strlit("CPOOLREF");
        },
        crate::ir::Opcode::BoolAnd => {
            reveal_strlit("BOOL_AND");
        },
        crate::ir::Opcode::New => {
            reveal_strlit("NEW");
        },
        crate::ir::Opcode::CallOther => {
            reveal_strlit("CALLOTHER");
        },
    }
}

proof fn lemma_word_len_concat(t: Seq<char>, x: Seq<char>)
    requires
        has_no_blank(t),
        x.len() == 0 || is_blank(x[0]),
    ensures
        word_len(t + x) == t.len(),
    decreases t.len(),
{
    if t.len() > 0 {
        assert((t + x).drop_first() =~= t.drop_first() + x);
        lemma_word_len_concat(t.drop_first(), x);
    } else {
        assert(t + x =~= x);
    }
}

proof fn lemma_field_len_concat(t: Seq<char>, x: Seq<char>)
    requires
        has_no_comma(t),
        x.len() == 0 || x[0] == ',',
    ensures
        field_len(t + x) == t.len(),
    decreases t.len(),
{
    if t.len() > 0 {
        assert((t + x).drop_first() =~= t.drop_first() + x);
        lemma_field_len_concat(t.drop_first(), x);
    } else {
        assert(t + x =~= x);
    }
}

/// Joining non-empty blank-free words by spaces and splitting them again
/// gives the words back.
proof fn lemma_words_joined(ts: Seq<Seq<char>>)
    requires
        forall|k: int| 0 <= k < ts.len() ==> (#[trigger] ts[k]).len() > 0 && has_no_blank(ts[k]),
    ensures
        words(joined(ts)) == ts,
    decreases ts.len(),
{
    if ts.len() == 0 {
        assert(ts =~= Seq::<Seq<char>>::empty());
    } else if ts.len() == 1 {
        let t = ts[0];
        assert(t + Seq::<char>::empty() =~= t);
        assert(!is_blank(t[0]));
        lemma_word_len_concat(t, Seq::empty());
        assert(t.take(t.len() as int) =~= t);
        assert(t.skip(t.len() as int) =~= Seq::<char>::empty());
        assert(words(Seq::<char>::empty()) == Seq::<Seq<char>>::empty());
        assert(joined(ts) == t);
        assert(words(t) == seq![t] + Seq::<Seq<char>>::empty());
        assert(seq![t] + Seq::<Seq<char>>::empty() =~= ts);
    } else {
        let t = ts[0];
        let rest = joined(ts.drop_first());
        let x = seq![' '] + rest;
        let line = t + x;
        lemma_word_len_concat(t, x);
        assert(!is_blank(t[0]));
        assert(line[0] == t[0]);
        assert(x[0] == ' ');
        assert(line.take(t.len() as int) =~= t);
        assert(line.skip(t.len() as int) =~= x);
        assert(x.drop_first() =~= rest);
        lemma_words_joined(ts.drop_first());
        assert(words(x) == words(rest));
        assert(joined(ts) == line);
        assert(words(line) == seq![t] + words(x));
        assert(seq![t] + ts.drop_first() =~= ts);
    }
}

proof fn lemma_fields_cons(a: Seq<char>, x: Seq<char>)
    requires
        has_no_comma(a),
    ensures
        fields(a + (seq![','] + x)) == seq![a] + fields(x),
{
    let s = a + (seq![','] + x);
    lemma_field_len_concat(a, seq![','] + x);
    assert(s.take(a.len() as int) =~= a);
    assert(s.skip(a.len() + 1 as int) =~= x);
}

proof fn lemma_fields_single(a: Seq<char>)
    requires
        has_no_comma(a),
    ensures
        fields(a) == seq![a],
{
    assert(a + Seq::<char>::empty() =~= a);
    lemma_field_len_concat(a, Seq::empty());
}

proof fn lemma_location_text(v: VarView)
    requires
        var_renders(v),
    ensures
        has_no_blank(location_text(v)),
        has_no_comma(location_text(v)),
        has_no_paren(location_text(v)),
        !(v is Const) ==> address_of(location_text(v)) == Some(
            match v {
                VarView::Unique(a) => a,
                VarView::Register(a) => a,
                VarView::Memory(a) => a,
                VarView::Const(_) => 0u32,
            },
        ),
{
    match v {
        VarView::Const(_) => {},
        VarView::Unique(a) => lemma_address_text(a),
        VarView::Register(a) => lemma_address_text(a),
        VarView::Memory(a) => lemma_address_text(a),
    }
}

proof fn lemma_address_text(a: u32)
    ensures
        has_no_blank(seq!['0', 'x'] + hex_text(a as nat)),
        has_no_comma(seq!['0', 'x'] + hex_text(a as nat)),
        has_no_paren(seq!['0', 'x'] + hex_text(a as nat)),
        address_of(seq!['0', 'x'] + hex_text(a as nat)) == Some(a),
{
    lemma_hex_text(a as nat);
    let h = hex_text(a as nat);
    let t = seq!['0', 'x'] + h;
    assert(t.skip(2) =~= h);
    assert forall|i: int| 0 <= i < t.len() implies !is_blank(#[trigger] t[i]) && t[i] != ','
        && t[i] != '(' && t[i] != ')' by {
        if i >= 2 {
            assert(t[i] == h[i - 2]);
            assert(is_hex_digit(h[i - 2]));
        }
    }
}

proof fn lemma_kind_text(v: VarView)
    ensures
        has_no_blank(kind_text(v)),
        has_no_comma(kind_text(v)),
        has_no_paren(kind_text(v)),
        var_renders(v) ==> var_of(kind_text(v), location_text(v)) == Ok::<VarView, crate::ir::ParseErrorView>(v),
{
    reveal_strlit("const");
    reveal_strlit("unique");
    reveal_strlit("register");
    reveal_strlit("memory");
    assert("const"@.len() == 5 && "unique"@.len() == 6 && "register"@.len() == 8
        && "memory"@.len() == 6);
    assert("unique"@[0] == 'u' && "memory"@[0] == 'm');
    if var_renders(v) {
        lemma_location_text(v);
    }
}

proof fn lemma_size_text(z: Size)
    ensures
        size_of_text(size_text(z)) == Some(z),
        has_no_blank(size_text(z)),
        has_no_comma(size_text(z)),
        has_no_paren(size_text(z)),
{
}

/// An operand written from three comma-free fields has those fields.
proof fn lemma_operand_fields(k: Seq<char>, a: Seq<char>, z: Seq<char>)
    requires
        has_no_comma(k),
        has_no_comma(a),
        has_no_comma(z),
        has_no_paren(k),
        has_no_paren(a),
        has_no_paren(z),
    ensures
        operand_shaped(operand_text(k, a, z)),
        operand_fields(operand_text(k, a, z)) == seq![k, a, z],
{
    let inner = k + (seq![','] + (a + (seq![','] + z)));
    let t = operand_text(k, a, z);
    assert(t =~= seq!['('] + (inner + seq![')']));
    assert(t.subrange(1, t.len() - 1) =~= inner);
    lemma_fields_cons(k, a + (seq![','] + z));
    lemma_fields_cons(a, z);
    lemma_fields_single(z);
    assert(fields(inner) =~= seq![k, a, z]);
}

/// An operand whose kind is none of `const`, `unique`, `register`, `memory`
/// is refused as an unknown kind, whatever its address and size fields hold.
pub proof fn lemma_unknown_kind_rejected(k: Seq<char>, a: Seq<char>, z: Seq<char>)
    requires
        has_no_comma(k),
        has_no_comma(a),
        has_no_comma(z),
        has_no_paren(k),
        has_no_paren(a),
        has_no_paren(z),
        !is_kind_name(k),
    ensures
        varnode_of(operand_text(k, a, z)) == Err::<VarnodeView, ParseErrorView>(
            ParseErrorView::UnknownVarnodeKind(k),
        ),
{
    lemma_operand_fields(k, a, z);
}

/// An operand whose kind and address are read without error but whose size is
/// none of `1`, `2`, `4`, `8` is refused as an unsupported size.
pub proof fn lemma_unsupported_size_rejected(k: Seq<char>, a: Seq<char>, z: Seq<char>)
    requires
        has_no_comma(k),
        has_no_comma(a),
        has_no_comma(z),
        has_no_paren(k),
        has_no_paren(a),
        has_no_paren(z),
        var_of(k, a) is Ok,
        size_of_text(z) is None,
    ensures
        varnode_of(operand_text(k, a, z)) == Err::<VarnodeView, ParseErrorView>(
            ParseErrorView::UnsupportedSize(z),
        ),
{
    lemma_operand_fields(k, a, z);
}

/// A line none of whose words is a mnemonic is refused. Unless its output
/// operand is refused first, the failure is a malformed line or an unknown opcode.
pub proof fn lemma_missing_opcode_rejected(line: Seq<char>)
    requires
        forall|k: int| 0 <= k < words(line).len() ==> opcode_named(#[trigger] words(line)[k]) is None,
    ensures
        inst_of(line) is Err,
        (!has_assignment(words(line)) || varnode_of(words(line)[0]) is Ok) ==> (inst_of(line) matches Err(
            e,
        ) && (e is MalformedLine || e is UnknownOpcode)),
{
    let ws = words(line);
    if has_assignment(ws) {
        if ws.len() > 2 {
            assert(ws.skip(2)[0] == ws[2]);
            assert(opcode_named(ws[2]) is None);
        }
    } else if ws.len() > 0 {
        assert(opcode_named(ws[0]) is None);
    }
}

/// Whether word `j` of `ws` stands where the line grammar puts an operand.
pub open spec fn is_operand_position(ws: Seq<Seq<char>>, j: int) -> bool {
    if has_assignment(ws) {
        j == 0 || 3 <= j < ws.len()
    } else {
        1 <= j < ws.len()
    }
}

/// Whether `line` fits the line grammar except perhaps at its operand word `j`.
pub open spec fn fits_grammar_except_at(line: Seq<char>, j: int) -> bool {
    let ws = words(line);
    let body = body_words(ws);
    &&& body.len() >= 1
    &&& opcode_named(body[0]) is Some
    &&& is_operand_position(ws, j)
    &&& forall|i: int| is_operand_position(ws, i) && i != j ==> operand_fits(#[trigger] ws[i])
}

proof fn lemma_first_failing_operand(ts: Seq<Seq<char>>, j: int)
    requires
        0 <= j < ts.len(),
        forall|i: int| 0 <= i < j ==> varnode_of(#[trigger] ts[i]) is Ok,
        varnode_of(ts[j]) is Err,
    ensures
        varnodes_of(ts) == Err::<Seq<VarnodeView>, ParseErrorView>(varnode_of(ts[j])->Err_0),
    decreases j,
{
    if j > 0 {
        let tail = ts.drop_first();
        assert(varnode_of(ts[0]) is Ok);
        assert forall|i: int| 0 <= i < j - 1 implies varnode_of(#[trigger] tail[i]) is Ok by {
            assert(tail[i] == ts[i + 1]);
        }
        assert(tail[j - 1] == ts[j]);
        lemma_first_failing_operand(tail, j - 1);
    }
}

/// In a line that fits the grammar except at operand word `j`, a failure to
/// read that operand is the failure of the whole line.
pub proof fn lemma_line_fails_at_operand(line: Seq<char>, j: int)
    requires
        fits_grammar_except_at(line, j),
        varnode_of(words(line)[j]) is Err,
    ensures
        inst_of(line) == Err::<InstView, ParseErrorView>(varnode_of(words(line)[j])->Err_0),
{
    let ws = words(line);
    let off: int = if has_assignment(ws) {
        2
    } else {
        0
    };
    if !(has_assignment(ws) && j == 0) {
        if has_assignment(ws) {
            assert(is_operand_position(ws, 0));
            lemma_operand_fits_reads(ws[0]);
        }
        let body = body_words(ws);
        let ins = body.drop_first();
        let jj = j - off - 1;
        assert(ins[jj] == ws[j]);
        assert forall|i: int| 0 <= i < jj implies varnode_of(#[trigger] ins[i]) is Ok by {
            assert(ins[i] == ws[i + off + 1]);
            assert(is_operand_position(ws, i + off + 1));
            lemma_operand_fits_reads(ws[i + off + 1]);
        }
        lemma_first_failing_operand(ins, jj);
        assert(ws.skip(0) =~= ws);
    }
}

/// A line that fits the grammar except that one operand's kind is none of
/// `const`, `unique`, `register`, `memory` is refused as an unknown kind.
pub proof fn lemma_line_unknown_kind_rejected(line: Seq<char>, j: int, k: Seq<char>, a: Seq<char>, z: Seq<char>)
    requires
        fits_grammar_except_at(line, j),
        words(line)[j] == operand_text(k, a, z),
        has_no_comma(k),
        has_no_comma(a),
        has_no_comma(z),
        has_no_paren(k),
        has_no_paren(a),
        has_no_paren(z),
        !is_kind_name(k),
    ensures
        inst_of(line) == Err::<InstView, ParseErrorView>(ParseErrorView::UnknownVarnodeKind(k)),
{
    lemma_unknown_kind_rejected(k, a, z);
    lemma_line_fails_at_operand(line, j);
}

/// A line that fits the grammar except that one operand, whose kind and address
/// read, has a size other than 1, 2, 4 or 8 is refused as an unsupported size.
pub proof fn lemma_line_unsupported_size_rejected(line: Seq<char>, j: int, k: Seq<char>, a: Seq<char>, z: Seq<char>)
    requires
        fits_grammar_except_at(line, j),
        words(line)[j] == operand_text(k, a, z),
        has_no_comma(k),
        has_no_comma(a),
        has_no_comma(z),
        has_no_paren(k),
        has_no_paren(a),
        has_no_paren(z),
        var_of(k, a) is Ok,
        size_of_text(z) is None,
    ensures
        inst_of(line) == Err::<InstView, ParseErrorView>(ParseErrorView::UnsupportedSize(z)),
{
    lemma_unsupported_size_rejected(k, a, z);
    lemma_line_fails_at_operand(line, j);
}

/// The canonical text of a writable operand reads back as that operand.
proof fn lemma_varnode_text(n: VarnodeView)
    requires
        var_renders(n.var),
    ensures
        varnode_of(varnode_text(n)) == Ok::<VarnodeView, crate::ir::ParseErrorView>(n),
        varnode_text(n).len() > 0,
        varnode_text(n)[0] == '(',
        has_no_blank(varnode_text(n)),
{
    let k = kind_text(n.var);
    let l = location_text(n.var);
    let z = size_text(n.size);
    lemma_kind_text(n.var);
    lemma_location_text(n.var);
    lemma_size_text(n.size);
    let inner = k + (seq![','] + (l + (seq![','] + z)));
    let t = varnode_text(n);
    lemma_operand_fields(k, l, z);
    assert(t =~= seq!['('] + (inner + seq![')']));
    assert forall|i: int| 0 <= i < t.len() implies !is_blank(#[trigger] t[i]) by {
        if 1 <= i < t.len() - 1 {
            assert(t[i] == inner[i - 1]);
        }
    }
}

/// Every input operand written out reads back, in order.
proof fn lemma_varnodes_text(ns: Seq<VarnodeView>)
    requires
        forall|k: int| 0 <= k < ns.len() ==> var_renders(#[trigger] ns[k].var),
    ensures
        varnodes_of(ns.map_values(|n: VarnodeView| varnode_text(n))) == Ok::<
            Seq<VarnodeView>,
            crate::ir::ParseErrorView,
        >(ns),
    decreases ns.len(),
{
    let ts = ns.map_values(|n: VarnodeView| varnode_text(n));
    if ns.len() > 0 {
        assert(var_renders(ns[0].var));
        lemma_varnode_text(ns[0]);
        assert(ts.drop_first() =~= ns.drop_first().map_values(|n: VarnodeView| varnode_text(n)));
        assert forall|k: int| 0 <= k < ns.drop_first().len() implies var_renders(
            #[trigger] ns.drop_first()[k].var,
        ) by {
            assert(ns.drop_first()[k] == ns[k + 1]);
        }
        lemma_varnodes_text(ns.drop_first());
        assert(seq![ns[0]] + ns.drop_first() =~= ns);
    } else {
        assert(ns =~= Seq::<VarnodeView>::empty());
    }
}

/// Reading back the canonical text of an instruction yields that instruction,
/// whenever the instruction can be written out (see [`inst_renders`]).
pub proof fn lemma_parse_inst_text(i: InstView)
    requires
        inst_renders(i),
    ensures
        inst_of(inst_text(i)) == Ok::<InstView, crate::ir::ParseErrorView>(i),
{
    let ts = inst_words(i);
    let ins = i.inputs.map_values(|n: VarnodeView| varnode_text(n));
    let head = match i.output {
        Some(o) => seq![varnode_text(o), seq!['=']],
        None => Seq::empty(),
    };
    let rest = seq![mnemonic_text(i.opcode)] + ins;
    assert(ts =~= head + rest);
    lemma_mnemonic_plain(i.opcode);
    if let Some(o) = i.output {
        lemma_varnode_text(o);
    }
    assert forall|k: int| 0 <= k < ts.len() implies (#[trigger] ts[k]).len() > 0 && has_no_blank(
        ts[k],
    ) by {
        if k >= head.len() + 1 {
            let m = k - head.len() - 1;
            assert(ts[k] == varnode_text(i.inputs[m]));
            assert(var_renders(i.inputs[m].var));
            lemma_varnode_text(i.inputs[m]);
        }
    }
    lemma_words_joined(ts);
    lemma_varnodes_text(i.inputs);
    lemma_opcode_named_mnemonic(i.opcode);
    assert(rest.drop_first() =~= ins);
    assert(rest[0] == mnemonic_text(i.opcode));
    assert(opcode_named(rest[0]) == Some(i.opcode));
    if let Some(o) = i.output {
        assert(has_assignment(ts));
        assert(ts.skip(2) =~= rest);
    } else {
        assert(ts =~= rest);
        if ts.len() >= 2 {
            assert(ts[1] == varnode_text(i.inputs[0]));
            assert(var_renders(i.inputs[0].var));
            lemma_varnode_text(i.inputs[0]);
            assert(ts[1][0] != seq!['='][0]);
        }
        assert(!has_assignment(ts));
        assert(ts.skip(0) =~= ts);
    }
}

proof fn lemma_joined_push(ts: Seq<Seq<char>>, t: Seq<char>)
    ensures
        joined(ts.push(t)) == if ts.len() == 0 {
            t
        } else {
            joined(ts) + (seq![' '] + t)
        },
    decreases ts.len(),
{
    if ts.len() == 0 {
        assert(ts.push(t) =~= seq![t]);
    } else if ts.len() == 1 {
        assert(ts.push(t).drop_first() =~= seq![t]);
        assert(joined(seq![t]) == t);
        assert(ts.push(t)[0] == ts[0]);
    } else {
        assert(ts.push(t).drop_first() =~= ts.drop_first().push(t));
        assert(ts.push(t)[0] == ts[0]);
        lemma_joined_push(ts.drop_first(), t);
        assert(ts[0] + (seq![' '] + (joined(ts.drop_first()) + (seq![' '] + t))) =~= (ts[0] + (
        seq![' '] + joined(ts.drop_first()))) + (seq![' '] + t));
    }
}

fn hex_digit_str(d: u32) -> (r: &'static str)
    requires
        d < 16,
    ensures
        r@ =~= seq![hex_char(d as nat)],
{
    proof {
        reveal_strlit("0");
        reveal_strlit("1");
        reveal_strlit("2");
        reveal_strlit("3");
        reveal_strlit("4");
        reveal_strlit("5");
        reveal_strlit("6");
        reveal_strlit("7");
        reveal_strlit("8");
        reveal_strlit("9");
        reveal_strlit("a");
        reveal_strlit("b");
        reveal_strlit("c");
        reveal_strlit("d");
        reveal_strlit("e");
        reveal_strlit("f");
    }
    if d == 0 {
        "0"
    } else if d == 1 {
        "1"
    } else if d == 2 {
        "2"
    } else if d == 3 {
        "3"
    } else if d == 4 {
        "4"
    } else if d == 5 {
        "5"
    } else if d == 6 {
        "6"
    } else if d == 7 {
        "7"
    } else if d == 8 {
        "8"
    } else if d == 9 {
        "9"
    } else if d == 10 {
        "a"
    } else if d == 11 {
        "b"
    } else if d == 12 {
        "c"
    } else if d == 13 {
        "d"
    } else if d == 14 {
        "e"
    } else {
        "f"
    }
}

/// Appends the hexadecimal digits of `n`.
fn push_hex(r: &mut String, n: u32)
    ensures
        final(r)@ == old(r)@ + hex_text(n as nat),
    decreases n,
{
    if n >= 16 {
        push_hex(r, n / 16);
    }
    r.append(hex_digit_str(n % 16));
    assert(r@ =~= old(r)@ + hex_text(n as nat));
}

/// Appends `(<kind>,<location>,<size>)` for `v`.
fn push_varnode(r: &mut String, v: &Varnode)
    ensures
        final(r)@ == old(r)@ + varnode_text(v@),
{
    proof {
        reveal_strlit("(");
        reveal_strlit(")");
        reveal_strlit(",");
        reveal_strlit("0x");
        reveal_strlit("1");
        reveal_strlit("2");
        reveal_strlit("4");
        reveal_strlit("8");
    }
    let ghost start = r@;
    r.append("(");
    let kind = match &v.var {
        Var::Const(_) => "const",
        Var::Unique(_) => "unique",
        Var::Register(_) => "register",
        Var::Memory(_) => "memory",
    };
    r.append(kind);
    r.append(",");
    let ghost before_loc = r@;
    match &v.var {
        Var::Const(s) => r.append(s.as_str()),
        Var::Unique(a) | Var::Register(a) | Var::Memory(a) => {
            r.append("0x");
            push_hex(r, *a);
        },
    }
    assert(r@ =~= before_loc + location_text(v.var@));
    r.append(",");
    let size = match v.size {
        Size::Byte => "1",
        Size::Half => "2",
        Size::Word => "4",
        Size::Quad => "8",
    };
    r.append(size);
    r.append(")");
    assert(r@ =~= start + varnode_text(v@));
}

impl Inst {
    /// The canonical line of this instruction: `[<output> = ]<MNEMONIC>[ <input>]*`,
    /// with addresses in lower-case hexadecimal.
    pub fn render(&self) -> (r: String)
        ensures
            r@ == inst_text(self@),
    {
        proof {
            reveal_strlit(" ");
            reveal_strlit("=");
            assert(" "@ =~= seq![' ']);
            assert("="@ =~= seq!['=']);
        }
        let ghost me = self@;
        let ghost ins = me.inputs.map_values(|n: VarnodeView| varnode_text(n));
        let ghost head: Seq<Seq<char>> = match me.output {
            Some(o) => seq![varnode_text(o), seq!['=']],
            None => Seq::empty(),
        };
        let mut r = String::new();
        if let Some(o) = &self.output {
            push_varnode(&mut r, o);
            r.append(" ");
            r.append("=");
            r.append(" ");
            proof {
                lemma_joined_push(seq![varnode_text(o@)], seq!['=']);
                lemma_joined_push(head, mnemonic_text(me.opcode));
                assert(seq![varnode_text(o@)].push(seq!['=']) =~= head);
                assert(joined(seq![varnode_text(o@)]) == varnode_text(o@));
            }
        } else {
            proof {
                lemma_joined_push(head, mnemonic_text(me.opcode));
            }
        }
        r.append(self.opcode.mnemonic());
        assert(r@ =~= joined(head.push(mnemonic_text(me.opcode))));
        let mut j: usize = 0;
        while j < self.inputs.len()
            invariant
                me == self@,
                ins == me.inputs.map_values(|n: VarnodeView| varnode_text(n)),
                j <= self.inputs@.len(),
                r@ == joined(head.push(mnemonic_text(me.opcode)) + ins.take(j as int)),
            decreases self.inputs@.len() - j,
        {
            let ghost done = head.push(mnemonic_text(me.opcode)) + ins.take(j as int);
            proof {
                reveal_strlit(" ");
                assert(" "@ =~= seq![' ']);
            }
            r.append(" ");
            push_varnode(&mut r, &self.inputs[j]);
            proof {
                assert(ins[j as int] == varnode_text(self.inputs@[j as int]@));
                lemma_joined_push(done, ins[j as int]);
                assert(done.push(ins[j as int]) =~= head.push(mnemonic_text(me.opcode)) + ins.take(
                    j + 1,
                ));
                assert(r@ =~= joined(done) + (seq![' '] + ins[j as int]));
            }
            j = j + 1;
        }
        assert(ins.take(j as int) =~= ins);
        assert(head.push(mnemonic_text(me.opcode)) + ins =~= inst_words(me));
        r
    }
}

proof fn lemma_word_len_plain(s: Seq<char>)
    ensures
        word_len(s) <= s.len(),
        has_no_blank(s.take(word_len(s) as int)),
    decreases s.len(),
{
    if s.len() > 0 && !is_blank(s[0]) {
        lemma_word_len_plain(s.drop_first());
        let n = word_len(s);
        assert forall|i: int| 0 <= i < n implies !is_blank(#[trigger] s.take(n as int)[i]) by {
            if i > 0 {
                assert(s.take(n as int)[i] == s.drop_first().take(n - 1)[i - 1]);
            }
        }
    }
}

/// Every word of a line is non-empty and holds no blank.
proof fn lemma_words_plain(s: Seq<char>)
    ensures
        forall|k: int|
            0 <= k < words(s).len() ==> (#[trigger] words(s)[k]).len() > 0 && has_no_blank(
                words(s)[k],
            ),
    decreases s.len(),
{
    if s.len() > 0 {
        if is_blank(s[0]) {
            lemma_words_plain(s.drop_first());
            assert(words(s) == words(s.drop_first()));
        } else {
            let n = word_len(s);
            crate::text::lemma_word_len_bound(s);
            lemma_word_len_plain(s);
            lemma_words_plain(s.skip(n as int));
            let ws = words(s);
            assert(ws == seq![s.take(n as int)] + words(s.skip(n as int)));
            assert forall|k: int| 0 <= k < ws.len() implies (#[trigger] ws[k]).len() > 0
                && has_no_blank(ws[k]) by {
                if k == 0 {
                    assert(ws[0] == s.take(n as int));
                } else {
                    assert(ws[k] == words(s.skip(n as int))[k - 1]);
                }
            }
        }
    }
}

/// The fields of a blank-free text are blank-free and comma-free.
proof fn lemma_fields_plain(s: Seq<char>)
    requires
        has_no_blank(s),
    ensures
        forall|k: int|
            0 <= k < fields(s).len() ==> has_no_blank(#[trigger] fields(s)[k]) && has_no_comma(
                fields(s)[k],
            ),
    decreases s.len(),
{
    let n = field_len(s);
    lemma_field_len_plain(s);
    if n < s.len() {
        let rest = s.skip(n + 1 as int);
        assert forall|i: int| 0 <= i < rest.len() implies !is_blank(#[trigger] rest[i]) by {
            assert(rest[i] == s[i + n + 1]);
        }
        lemma_fields_plain(rest);
        let fs = fields(s);
        assert forall|k: int| 0 <= k < fs.len() implies has_no_blank(#[trigger] fs[k])
            && has_no_comma(fs[k]) by {
            if k > 0 {
                assert(fs[k] == fields(rest)[k - 1]);
            }
        }
    } else {
        assert(s.take(n as int) =~= s);
    }
}

proof fn lemma_field_len_plain(s: Seq<char>)
    ensures
        field_len(s) <= s.len(),
        has_no_comma(s.take(field_len(s) as int)),
        field_len(s) < s.len() ==> s[field_len(s) as int] == ',',
    decreases s.len(),
{
    if s.len() > 0 && s[0] != ',' {
        lemma_field_len_plain(s.drop_first());
        let n = field_len(s);
        assert forall|i: int| 0 <= i < n implies #[trigger] s.take(n as int)[i] != ',' by {
            if i > 0 {
                assert(s.take(n as int)[i] == s.drop_first().take(n - 1)[i - 1]);
            }
        }
    }
}

/// An operand read from a blank-free word can be written out again.
proof fn lemma_read_varnode_renders(t: Seq<char>)
    requires
        has_no_blank(t),
        varnode_of(t) is Ok,
    ensures
        var_renders(varnode_of(t)->Ok_0.var),
{
    let inner = t.subrange(1, t.len() - 1);
    assert forall|i: int| 0 <= i < inner.len() implies !is_blank(#[trigger] inner[i]) by {
        assert(inner[i] == t[i + 1]);
    }
    lemma_fields_plain(inner);
    assert(has_no_blank(operand_fields(t)[1]) && has_no_comma(operand_fields(t)[1]));
}

/// Operands read from blank-free words, one by one.
proof fn lemma_read_varnodes_render(ts: Seq<Seq<char>>)
    requires
        forall|k: int| 0 <= k < ts.len() ==> has_no_blank(#[trigger] ts[k]),
        varnodes_of(ts) is Ok,
    ensures
        forall|k: int|
            0 <= k < varnodes_of(ts)->Ok_0.len() ==> var_renders(
                (#[trigger] varnodes_of(ts)->Ok_0[k]).var,
            ),
    decreases ts.len(),
{
    if ts.len() > 0 {
        assert(has_no_blank(ts[0]));
        lemma_read_varnode_renders(ts[0]);
        let tail = ts.drop_first();
        assert forall|k: int| 0 <= k < tail.len() implies has_no_blank(#[trigger] tail[k]) by {
            assert(tail[k] == ts[k + 1]);
        }
        lemma_read_varnodes_render(tail);
        let vs = varnodes_of(ts)->Ok_0;
        assert forall|k: int| 0 <= k < vs.len() implies var_renders((#[trigger] vs[k]).var) by {
            if k > 0 {
                assert(vs[k] == varnodes_of(tail)->Ok_0[k - 1]);
            }
        }
    }
}

/// Any instruction read from a line can be written out, and its canonical text
/// reads back as the same instruction: the operands keep their kind,
/// address or literal, and size, and the inputs keep their order.
pub proof fn lemma_parsed_line_round_trips(line: Seq<char>)
    requires
        inst_of(line) is Ok,
    ensures
        inst_renders(inst_of(line)->Ok_0),
        inst_of(inst_text(inst_of(line)->Ok_0)) == inst_of(line),
{
    let ws = words(line);
    lemma_words_plain(line);
    let i = inst_of(line)->Ok_0;
    let rest = if has_assignment(ws) {
        ws.skip(2)
    } else {
        ws
    };
    if has_assignment(ws) {
        assert(has_no_blank(ws[0]));
        lemma_read_varnode_renders(ws[0]);
    }
    let ins = rest.drop_first();
    assert forall|k: int| 0 <= k < ins.len() implies has_no_blank(#[trigger] ins[k]) by {
        if has_assignment(ws) {
            assert(ins[k] == ws[k + 3]);
        } else {
            assert(ins[k] == ws[k + 1]);
        }
    }
    lemma_read_varnodes_render(ins);
    lemma_parse_inst_text(i);
}

} // verus!
