use pcode_parser::{parse_line, parse_varnode, Inst, Opcode, ParseError, Size, Var, Varnode};
use std::collections::hash_map::DefaultHasher;
use std::hash::{Hash, Hasher};

fn vn(var: Var, size: Size) -> Varnode {
    Varnode { var, size }
}

fn hash_of(v: &Var) -> u64 {
    let mut h = DefaultHasher::new();
    v.hash(&mut h);
    h.finish()
}

#[test]
fn load_line_parses() {
    let inst = parse_line("(unique,0x5380,1) = LOAD (const,0x55e4a78f0330,8) (register,0x0,8)").unwrap();
    assert_eq!(inst.opcode, Opcode::Load);
    assert_eq!(inst.output, Some(vn(Var::Unique(0x5380), Size::Byte)));
    assert_eq!(
        inst.inputs,
        vec![
            vn(Var::Const("0x55e4a78f0330".to_string()), Size::Quad),
            vn(Var::Register(0x0), Size::Quad),
        ]
    );
}

#[test]
fn load_line_parses_through_from_str() {
    let inst: Inst = "(unique,0x5380,1) = LOAD (const,0x55e4a78f0330,8) (register,0x0,8)".parse().unwrap();
    assert_eq!(inst.opcode, Opcode::Load);
    assert_eq!(inst.inputs.len(), 2);
}

#[test]
fn store_line_keeps_input_order() {
    let inst = parse_line("STORE (const,0x1,8) (register,0x10,8) (register,0x20,4)").unwrap();
    assert_eq!(inst.opcode, Opcode::Store);
    assert_eq!(inst.output, None);
    assert_eq!(
        inst.inputs,
        vec![
            vn(Var::Const("0x1".to_string()), Size::Quad),
            vn(Var::Register(0x10), Size::Quad),
            vn(Var::Register(0x20), Size::Word),
        ]
    );
}

#[test]
fn branch_line_has_one_input() {
    let inst = parse_line("BRANCH (const,0x401020,8)").unwrap();
    assert_eq!(inst.opcode, Opcode::Branch);
    assert_eq!(inst.output, None);
    assert_eq!(inst.inputs, vec![vn(Var::Const("0x401020".to_string()), Size::Quad)]);
}

#[test]
fn unknown_opcode_is_named() {
    assert_eq!(
        parse_line("(register,0x0,4) = FOO (const,0x1,4)").unwrap_err(),
        ParseError::UnknownOpcode("FOO".to_string())
    );
}

#[test]
fn opcode_lookup_is_case_sensitive() {
    assert_eq!(
        parse_line("(register,0x0,4) = copy (const,0x1,4)").unwrap_err(),
        ParseError::UnknownOpcode("copy".to_string())
    );
}

#[test]
fn unknown_kind_is_named() {
    assert_eq!(
        parse_line("(weird,0x0,4) = COPY (register,0x0,4)").unwrap_err(),
        ParseError::UnknownVarnodeKind("weird".to_string())
    );
}

#[test]
fn kind_names_are_case_sensitive() {
    assert_eq!(
        parse_varnode("(Register,0x0,4)").unwrap_err(),
        ParseError::UnknownVarnodeKind("Register".to_string())
    );
    assert_eq!(
        parse_varnode("(ram,0x0,4)").unwrap_err(),
        ParseError::UnknownVarnodeKind("ram".to_string())
    );
}

#[test]
fn odd_size_is_unsupported() {
    assert_eq!(
        parse_line("(unique,0x10,3) = COPY (register,0x0,4)").unwrap_err(),
        ParseError::UnsupportedSize("3".to_string())
    );
}

#[test]
fn other_sizes_are_unsupported() {
    for z in ["16", "0", "x", "", "01"] {
        let text = format!("(register,0x0,{})", z);
        assert_eq!(parse_varnode(&text).unwrap_err(), ParseError::UnsupportedSize(z.to_string()));
    }
}

#[test]
fn all_four_sizes_are_read() {
    assert_eq!(parse_varnode("(memory,0x0,1)").unwrap().size, Size::Byte);
    assert_eq!(parse_varnode("(memory,0x0,2)").unwrap().size, Size::Half);
    assert_eq!(parse_varnode("(memory,0x0,4)").unwrap().size, Size::Word);
    assert_eq!(parse_varnode("(memory,0x0,8)").unwrap().size, Size::Quad);
}

#[test]
fn addresses_in_hex_and_decimal() {
    assert_eq!(parse_varnode("(register,16,4)").unwrap().var, Var::Register(16));
    assert_eq!(parse_varnode("(register,0X1F,4)").unwrap().var, Var::Register(0x1f));
    assert_eq!(parse_varnode("(memory,0xffffffff,8)").unwrap().var, Var::Memory(0xffff_ffff));
    assert_eq!(parse_varnode("(unique,4294967295,8)").unwrap().var, Var::Unique(4294967295));
}

#[test]
fn bad_addresses_are_refused() {
    for a in ["0xZZ", "0x", "", "4294967296", "0x100000000", "-1", "12a"] {
        let text = format!("(register,{},4)", a);
        assert_eq!(parse_varnode(&text).unwrap_err(), ParseError::InvalidAddress(a.to_string()));
    }
}

#[test]
fn const_literal_is_kept_verbatim() {
    assert_eq!(
        parse_varnode("(const,0xFFFFFFFFFFFFFFFFFF,8)").unwrap().var,
        Var::Const("0xFFFFFFFFFFFFFFFFFF".to_string())
    );
    assert_eq!(parse_varnode("(const,sym,4)").unwrap().var, Var::Const("sym".to_string()));
}

#[test]
fn malformed_operands_are_refused() {
    for t in ["(register,0x0)", "(register,0x0,4", "register,0x0,4)", "(register,0x0,4,5)", "()", "("] {
        assert_eq!(parse_varnode(t).unwrap_err(), ParseError::MalformedLine(t.to_string()));
    }
}

#[test]
fn malformed_input_fails_whole_line() {
    assert_eq!(
        parse_line("COPY (register,0x0,4) (unique,0x1").unwrap_err(),
        ParseError::MalformedLine("(unique,0x1".to_string())
    );
}

#[test]
fn missing_opcode_is_refused() {
    assert_eq!(parse_line("").unwrap_err(), ParseError::MalformedLine("".to_string()));
    assert_eq!(parse_line("   ").unwrap_err(), ParseError::MalformedLine("   ".to_string()));
    assert_eq!(
        parse_line("(unique,0x1,1) =").unwrap_err(),
        ParseError::MalformedLine("(unique,0x1,1) =".to_string())
    );
    assert_eq!(
        parse_line("(unique,0x1,1) = (register,0x0,1)").unwrap_err(),
        ParseError::UnknownOpcode("(register,0x0,1)".to_string())
    );
    assert_eq!(
        parse_line("(register,0x0,1)").unwrap_err(),
        ParseError::UnknownOpcode("(register,0x0,1)".to_string())
    );
}

#[test]
fn output_follows_the_line_alone() {
    let copy = parse_line("COPY (register,0x0,4)").unwrap();
    assert_eq!(copy.opcode, Opcode::Copy);
    assert!(copy.output.is_none());
    let call = parse_line("(register,0x0,8) = CALL (memory,0x401000,8)").unwrap();
    assert_eq!(call.opcode, Opcode::Call);
    assert_eq!(call.output, Some(vn(Var::Register(0x0), Size::Quad)));
    assert_eq!(call.inputs, vec![vn(Var::Memory(0x401000), Size::Quad)]);
    let store = parse_line("(unique,0x1,8) = STORE (const,0x1,8) (register,0x10,8) (register,0x20,4)").unwrap();
    assert!(store.output.is_some());
    assert!(parse_line("CALLOTHER (const,0x1,4)").unwrap().output.is_none());
    assert!(parse_line("(unique,0x1,4) = CALLOTHER (const,0x1,4)").unwrap().output.is_some());
}

#[test]
fn unbalanced_parentheses_are_malformed() {
    for t in ["(register,0x0,4))", "((register,0x0,4)", "(register,(0x0,4)", "(const,a)b,8)"] {
        assert_eq!(parse_varnode(t).unwrap_err(), ParseError::MalformedLine(t.to_string()));
    }
    assert_eq!(
        parse_line("COPY (register,0x0,4))").unwrap_err(),
        ParseError::MalformedLine("(register,0x0,4))".to_string())
    );
}

#[test]
fn zero_input_line() {
    let inst = parse_line("RETURN").unwrap();
    assert_eq!(inst.opcode, Opcode::Return);
    assert!(inst.output.is_none());
    assert!(inst.inputs.is_empty());
}

#[test]
fn blanks_between_words_are_free() {
    let inst = parse_line("  (unique,0x10,4)\t=   INT_ADD\t(register,0x0,4)  (const,0x1,4)  ").unwrap();
    assert_eq!(inst.opcode, Opcode::IntAdd);
    assert_eq!(inst.output, Some(vn(Var::Unique(0x10), Size::Word)));
    assert_eq!(inst.inputs.len(), 2);
}

#[test]
fn first_failure_wins() {
    assert_eq!(
        parse_line("(bad,0x0,4) = FOO (register,0x0,3)").unwrap_err(),
        ParseError::UnknownVarnodeKind("bad".to_string())
    );
    assert_eq!(
        parse_line("(unique,0x0,4) = FOO (register,0x0,3)").unwrap_err(),
        ParseError::UnknownOpcode("FOO".to_string())
    );
    assert_eq!(
        parse_line("(unique,0x0,4) = COPY (register,0x0,3) (bad,0,4)").unwrap_err(),
        ParseError::UnsupportedSize("3".to_string())
    );
}

#[test]
fn render_matches_sample_text() {
    let line = "(unique,0x5380,1) = LOAD (const,0x55e4a78f0330,8) (register,0x0,8)";
    assert_eq!(parse_line(line).unwrap().render(), line);
}

#[test]
fn render_then_parse_round_trips() {
    let lines = [
        "(unique,0x5380,1) = LOAD (const,0x55e4a78f0330,8) (register,0x0,8)",
        "STORE (const,0x1,8) (register,0x10,8) (register,0x20,4)",
        "BRANCH (const,0x401020,8)",
        "(memory,4096,2) = INT_SEXT (register,0XAB,1)",
        "RETURN",
    ];
    for line in lines {
        let inst = parse_line(line).unwrap();
        let again = parse_line(&inst.render()).unwrap();
        assert_eq!(again, inst);
    }
    assert_eq!(
        parse_line("(memory,4096,2) = INT_SEXT (register,0XAB,1)").unwrap().render(),
        "(memory,0x1000,2) = INT_SEXT (register,0xab,1)"
    );
}

#[test]
fn every_mnemonic_reads_back() {
    let ops = [Opcode::Copy, Opcode::IntAdd, Opcode::Int2Float, Opcode::FloatCell, Opcode::BrandInd, Opcode::CallOther, Opcode::New];
    let names = ["COPY", "INT_ADD", "INT2FLOAT", "FLOAT_CEIL", "BRANCHIND", "CALLOTHER", "NEW"];
    for (op, name) in ops.iter().zip(names.iter()) {
        assert_eq!(op.mnemonic(), *name);
        let line = format!("(unique,0x0,4) = {} (register,0x0,4)", name);
        assert_eq!(parse_line(&line).unwrap().opcode, *op);
    }
}

#[test]
fn size_ordering() {
    assert!(Size::Byte < Size::Half);
    assert!(Size::Half < Size::Word);
    assert!(Size::Word < Size::Quad);
    assert!(Size::Byte < Size::Quad);
    assert!(!(Size::Quad < Size::Byte));
    assert_eq!(Size::Quad.bytes(), 8);
}

#[test]
fn register_equality_and_hash() {
    let a = Var::Register(0x0);
    let b = Var::Register(0x0);
    let m = Var::Memory(0x0);
    assert_eq!(a, b);
    assert_eq!(hash_of(&a), hash_of(&b));
    assert_ne!(a, m);
    assert_eq!(Var::Const("0x0".to_string()), Var::Const("0x0".to_string()));
    assert_ne!(Var::Const("0x0".to_string()), Var::Const("0".to_string()));
    assert_ne!(hash_of(&a), hash_of(&m));
    assert_ne!(hash_of(&Var::Unique(0x0)), hash_of(&m));
}
