use virtuous::instructions::{
    AccessData, Action, DataType, ACCESS_LITERAL, ACCESS_MEMORY, CALL_FUNCTION, DECLARE_FUNCTION,
    FREE_MEMORY, STORE_MEMORY, TYPE_INT, TYPE_STRING, TYPE_VOID,
};
use virtuous::parser::{
    parse_access_data, parse_action, parse_call_function, parse_declare_function, parse_int,
    parse_literal, parse_script, parse_string, parse_type,
};
use virtuous::script_builder::ScriptBuilder;

#[test]
fn string_stops_at_first_nul() {
    let (rest, s) = parse_string(b"ab\0cd\0").ok().unwrap();
    assert_eq!(s, b"ab".to_vec());
    assert_eq!(rest, b"cd\0");
}

#[test]
fn empty_string_is_accepted() {
    let (rest, s) = parse_string(b"\0x").ok().unwrap();
    assert!(s.is_empty());
    assert_eq!(rest, b"x");
}

#[test]
fn string_without_terminator_fails() {
    assert!(parse_string(b"abc").is_err());
    assert!(parse_string(b"").is_err());
}

#[test]
fn int_needs_four_bytes() {
    let (rest, data) = parse_int(&[0, 0, 1, 2, 9]).ok().unwrap();
    assert_eq!(data, vec![0, 0, 1, 2]);
    assert_eq!(rest, &[9]);
    assert!(parse_int(&[1, 2, 3]).is_err());
}

#[test]
fn type_tags_decode() {
    let (_, ty) = parse_type(&[TYPE_VOID]).ok().unwrap();
    assert_eq!(ty, DataType::Void);
    let (_, ty) = parse_type(&[19]).ok().unwrap();
    assert_eq!(ty, DataType::Struct);
    assert!(parse_type(&[9]).is_err());
    assert!(parse_type(&[20]).is_err());
    assert!(parse_type(&[]).is_err());
}

#[test]
fn type_tag_round_trips() {
    for ty in [DataType::Void, DataType::Byte, DataType::Int, DataType::String, DataType::Struct] {
        let (_, back) = parse_type(&[ty.tag()]).ok().unwrap();
        assert_eq!(back, ty);
    }
}

#[test]
fn fixed_widths() {
    assert_eq!(DataType::Void.fixed_width(), Some(0));
    assert_eq!(DataType::Bool.fixed_width(), Some(1));
    assert_eq!(DataType::Int.fixed_width(), Some(4));
    assert_eq!(DataType::Float.fixed_width(), Some(4));
    assert_eq!(DataType::String.fixed_width(), None);
    assert_eq!(DataType::Table.fixed_width(), None);
}

#[test]
fn literal_int_and_string() {
    let (rest, lit) = parse_literal(&[TYPE_INT, 0, 0, 0, 7]).ok().unwrap();
    assert_eq!(lit.ty, DataType::Int);
    assert_eq!(lit.data, vec![0, 0, 0, 7]);
    assert!(rest.is_empty());
    let (_, lit) = parse_literal(&[TYPE_STRING, b'h', b'i', 0]).ok().unwrap();
    assert_eq!(lit.ty, DataType::String);
    assert_eq!(lit.data, b"hi".to_vec());
    assert!(parse_literal(&[TYPE_INT, 0, 0]).is_err());
    assert!(parse_literal(&[TYPE_VOID]).is_err());
}

#[test]
fn access_data_literal_and_memory() {
    let (_, a) = parse_access_data(&[ACCESS_LITERAL, TYPE_INT, 0, 0, 0, 1]).ok().unwrap();
    assert!(matches!(a, AccessData::Literal(ref l) if l.0.data == vec![0, 0, 0, 1]));
    let (_, a) = parse_access_data(b"\x15ab\0").ok().unwrap();
    assert!(matches!(a, AccessData::Memory(ref m) if m.0 == b"ab".to_vec()));
    assert!(parse_access_data(&[22, 0]).is_err());
}

#[test]
fn unknown_opcode_fails() {
    assert!(parse_action(&[99, b'a', 0]).is_err());
    assert!(parse_action(&[]).is_err());
}

#[test]
fn free_memory_decodes() {
    let (rest, a) = parse_action(&[FREE_MEMORY, b'x', 0]).ok().unwrap();
    assert!(rest.is_empty());
    assert!(matches!(a, Action::FreeMemory(ref f) if f.0 == b"x".to_vec()));
}

#[test]
fn call_function_decodes() {
    let mut b = ScriptBuilder::new();
    b.add_instruction(CALL_FUNCTION);
    b.add_bytes(b"add\0");
    b.add_bytes(&[2]);
    b.add_instruction(ACCESS_LITERAL);
    b.add_instruction(TYPE_INT);
    b.add_bytes(&1i32.to_be_bytes());
    b.add_instruction(ACCESS_MEMORY);
    b.add_bytes(b"y\0");
    b.add_bytes(b"out\0");
    let (rest, c) = parse_call_function(b.get_binary()).ok().unwrap();
    assert!(rest.is_empty());
    assert_eq!(c.location, b"add".to_vec());
    assert_eq!(c.arg_count, 2);
    assert_eq!(c.args.len(), 2);
    assert!(matches!(c.args[0], AccessData::Literal(ref l) if l.0.ty == DataType::Int && l.0.data == vec![0, 0, 0, 1]));
    assert!(matches!(c.args[1], AccessData::Memory(ref m) if m.0 == b"y".to_vec()));
    assert_eq!(c.result_location, b"out".to_vec());
}

#[test]
fn call_with_too_few_operands_fails() {
    let bytes = [CALL_FUNCTION, b'f', 0, 2, ACCESS_MEMORY, b'a', 0, 0];
    assert!(parse_call_function(&bytes).is_err());
}

#[test]
fn declare_function_decodes() {
    let bytes = [DECLARE_FUNCTION, b'f', 0, 1, TYPE_INT, b'n', 0, TYPE_STRING];
    let (rest, d) = parse_declare_function(&bytes).ok().unwrap();
    assert!(rest.is_empty());
    assert_eq!(d.location, b"f".to_vec());
    assert_eq!(d.arg_count, 1);
    assert_eq!(d.args.len(), 1);
    assert_eq!(d.args[0].ty, DataType::Int);
    assert_eq!(d.args[0].location, b"n".to_vec());
    assert_eq!(d.return_ty, DataType::String);
    assert!(d.statements.is_empty());
}

#[test]
fn empty_script_is_empty_program() {
    let (rest, actions) = parse_script(&[]).ok().unwrap();
    assert!(rest.is_empty());
    assert!(actions.is_empty());
}

#[test]
fn script_stops_at_malformed_action() {
    let bytes = [FREE_MEMORY, b'a', 0, 77, 1];
    let (rest, actions) = parse_script(&bytes).ok().unwrap();
    assert_eq!(actions.len(), 1);
    assert_eq!(rest, &[77, 1]);
}

#[test]
fn builder_output_round_trips() {
    let mut b = ScriptBuilder::new();
    b.add_instruction(STORE_MEMORY);
    b.add_bytes(b"a\0");
    b.add_instruction(ACCESS_LITERAL);
    b.add_instruction(TYPE_INT);
    b.add_bytes(&(-5i32).to_be_bytes());
    b.add_instruction(STORE_MEMORY);
    b.add_bytes(b"s\0");
    b.add_instruction(ACCESS_LITERAL);
    b.add_instruction(TYPE_STRING);
    b.add_bytes(b"hello\0");
    b.add_instruction(CALL_FUNCTION);
    b.add_bytes(b"print\0");
    b.add_bytes(&[1]);
    b.add_instruction(ACCESS_MEMORY);
    b.add_bytes(b"s\0");
    b.add_bytes(b"\0");
    let (rest, actions) = parse_script(b.get_binary()).ok().unwrap();
    assert!(rest.is_empty());
    assert_eq!(actions.len(), 3);
    match &actions[0] {
        Action::StoreMemory(s) => {
            assert_eq!(s.location, b"a".to_vec());
            assert!(matches!(s.data, AccessData::Literal(ref l) if l.0.ty == DataType::Int && l.0.data == (-5i32).to_be_bytes().to_vec()));
        }
        _ => panic!("expected a store"),
    }
    match &actions[1] {
        Action::StoreMemory(s) => {
            assert_eq!(s.location, b"s".to_vec());
            assert!(matches!(s.data, AccessData::Literal(ref l) if l.0.ty == DataType::String && l.0.data == b"hello".to_vec()));
        }
        _ => panic!("expected a store"),
    }
    match &actions[2] {
        Action::CallFunction(c) => {
            assert_eq!(c.location, b"print".to_vec());
            assert_eq!(c.args.len(), 1);
            assert!(matches!(c.args[0], AccessData::Memory(ref m) if m.0 == b"s".to_vec()));
            assert!(c.result_location.is_empty());
        }
        _ => panic!("expected a call"),
    }
}
