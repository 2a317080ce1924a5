use std::cell::RefCell;
use std::rc::Rc;

use virtuous::functions::NativeFunction;
use virtuous::instructions::{
    DataType, StoredData, ACCESS_LITERAL, ACCESS_MEMORY, CALL_FUNCTION, DECLARE_FUNCTION,
    FREE_MEMORY, STORE_MEMORY, TYPE_INT, TYPE_STRING,
};
use virtuous::runtime::{store_result, Runtime, RuntimeError};
use virtuous::script_builder::ScriptBuilder;
use virtuous::table::Table;

enum Host {
    Add,
    Print(Rc<RefCell<Vec<Vec<StoredData>>>>),
    Constant(i32),
}

fn int_of(d: &StoredData) -> i32 {
    i32::from_be_bytes([d.data[0], d.data[1], d.data[2], d.data[3]])
}

fn int_value(v: i32) -> StoredData {
    StoredData { ty: DataType::Int, data: v.to_be_bytes().to_vec() }
}

impl NativeFunction for Host {
    fn execute(&self, args: &Vec<StoredData>) -> Result<StoredData, RuntimeError> {
        match self {
            Host::Add => {
                if args.len() != 2 {
                    return Err(RuntimeError::InvalidArgumentCount(2, args.len() as u8));
                }
                for a in args {
                    if a.ty != DataType::Int {
                        return Err(RuntimeError::InvalidArgument(DataType::Int, a.ty));
                    }
                }
                Ok(int_value(int_of(&args[0]) + int_of(&args[1])))
            }
            Host::Print(seen) => {
                seen.borrow_mut().push(args.clone());
                Ok(StoredData::null())
            }
            Host::Constant(v) => Ok(int_value(*v)),
        }
    }
}

fn store_int(b: &mut ScriptBuilder, at: &[u8], v: i32) {
    b.add_instruction(STORE_MEMORY);
    b.add_bytes(at);
    b.add_bytes(b"\0");
    b.add_instruction(ACCESS_LITERAL);
    b.add_instruction(TYPE_INT);
    b.add_bytes(&v.to_be_bytes());
}

fn store_copy(b: &mut ScriptBuilder, at: &[u8], from: &[u8]) {
    b.add_instruction(STORE_MEMORY);
    b.add_bytes(at);
    b.add_bytes(b"\0");
    b.add_instruction(ACCESS_MEMORY);
    b.add_bytes(from);
    b.add_bytes(b"\0");
}

fn free(b: &mut ScriptBuilder, at: &[u8]) {
    b.add_instruction(FREE_MEMORY);
    b.add_bytes(at);
    b.add_bytes(b"\0");
}

fn call_on_memory(b: &mut ScriptBuilder, f: &[u8], args: &[&[u8]], result: &[u8]) {
    b.add_instruction(CALL_FUNCTION);
    b.add_bytes(f);
    b.add_bytes(b"\0");
    b.add_instruction(args.len() as u8);
    for a in args {
        b.add_instruction(ACCESS_MEMORY);
        b.add_bytes(a);
        b.add_bytes(b"\0");
    }
    b.add_bytes(result);
    b.add_bytes(b"\0");
}

#[test]
fn malformed_script_is_refused() {
    assert!(Runtime::<Host>::new(&[STORE_MEMORY, b'a']).is_err());
    assert!(Runtime::<Host>::new(&[5]).is_err());
}

#[test]
fn empty_script_runs() {
    let mut rt = Runtime::<Host>::new(&[]).ok().unwrap();
    assert!(rt.execute().is_ok());
}

#[test]
fn free_twice_fails_the_second_time() {
    let mut b = ScriptBuilder::new();
    store_int(&mut b, b"x", 9);
    free(&mut b, b"x");
    let mut rt = Runtime::<Host>::new(b.get_binary()).ok().unwrap();
    assert!(rt.execute().is_ok());
    assert!(rt.read_memory(b"x").is_none());

    let mut b = ScriptBuilder::new();
    store_int(&mut b, b"x", 9);
    free(&mut b, b"x");
    free(&mut b, b"x");
    let mut rt = Runtime::<Host>::new(b.get_binary()).ok().unwrap();
    match rt.execute() {
        Err(RuntimeError::InvalidLocation(l)) => assert_eq!(l, b"x".to_vec()),
        _ => panic!("expected an invalid location"),
    }
}

#[test]
fn copy_is_independent() {
    let mut b = ScriptBuilder::new();
    store_int(&mut b, b"l", 5);
    store_copy(&mut b, b"m", b"l");
    store_int(&mut b, b"l", 6);
    let mut rt = Runtime::<Host>::new(b.get_binary()).ok().unwrap();
    assert!(rt.execute().is_ok());
    assert_eq!(int_of(&rt.read_memory(b"m").unwrap()), 5);
    assert_eq!(int_of(&rt.read_memory(b"l").unwrap()), 6);
}

#[test]
fn copy_from_missing_location_fails() {
    let mut b = ScriptBuilder::new();
    store_int(&mut b, b"a", 1);
    store_copy(&mut b, b"m", b"nope");
    store_int(&mut b, b"z", 2);
    let mut rt = Runtime::<Host>::new(b.get_binary()).ok().unwrap();
    match rt.execute() {
        Err(RuntimeError::InvalidLocation(l)) => assert_eq!(l, b"nope".to_vec()),
        _ => panic!("expected an invalid location"),
    }
    assert!(rt.read_memory(b"a").is_some());
    assert!(rt.read_memory(b"z").is_none());
}

#[test]
fn add_with_one_argument_fails_and_stops() {
    let mut b = ScriptBuilder::new();
    store_int(&mut b, b"a", 1);
    call_on_memory(&mut b, b"add", &[b"a"], b"sum");
    store_int(&mut b, b"after", 1);
    let mut rt = Runtime::new(b.get_binary()).ok().unwrap();
    rt.add_native_function(b"add".to_vec(), Host::Add);
    assert!(matches!(rt.execute(), Err(RuntimeError::InvalidArgumentCount(2, 1))));
    assert!(rt.read_memory(b"sum").is_none());
    assert!(rt.read_memory(b"after").is_none());
}

#[test]
fn add_with_string_argument_fails_and_stops() {
    let mut b = ScriptBuilder::new();
    store_int(&mut b, b"a", 1);
    b.add_instruction(STORE_MEMORY);
    b.add_bytes(b"s\0");
    b.add_instruction(ACCESS_LITERAL);
    b.add_instruction(TYPE_STRING);
    b.add_bytes(b"two\0");
    call_on_memory(&mut b, b"add", &[b"a", b"s"], b"sum");
    store_int(&mut b, b"after", 1);
    let mut rt = Runtime::new(b.get_binary()).ok().unwrap();
    rt.add_native_function(b"add".to_vec(), Host::Add);
    assert!(matches!(
        rt.execute(),
        Err(RuntimeError::InvalidArgument(DataType::Int, DataType::String))
    ));
    assert!(rt.read_memory(b"sum").is_none());
    assert!(rt.read_memory(b"after").is_none());
}

#[test]
fn discarded_result_touches_no_memory() {
    let mut b = ScriptBuilder::new();
    store_int(&mut b, b"a", 1);
    call_on_memory(&mut b, b"k", &[], b"");
    let mut rt = Runtime::new(b.get_binary()).ok().unwrap();
    rt.add_native_function(b"k".to_vec(), Host::Constant(42));
    assert!(rt.execute().is_ok());
    assert!(rt.read_memory(b"").is_none());
    assert_eq!(int_of(&rt.read_memory(b"a").unwrap()), 1);
}

#[test]
fn call_result_overwrites_cell() {
    let mut b = ScriptBuilder::new();
    store_int(&mut b, b"a", 1);
    call_on_memory(&mut b, b"k", &[], b"a");
    let mut rt = Runtime::new(b.get_binary()).ok().unwrap();
    rt.add_native_function(b"k".to_vec(), Host::Constant(42));
    assert!(rt.execute().is_ok());
    assert_eq!(int_of(&rt.read_memory(b"a").unwrap()), 42);
}

#[test]
fn later_registration_wins() {
    let mut b = ScriptBuilder::new();
    call_on_memory(&mut b, b"k", &[], b"r");
    let mut rt = Runtime::new(b.get_binary()).ok().unwrap();
    rt.add_native_function(b"k".to_vec(), Host::Constant(1));
    rt.add_native_function(b"k".to_vec(), Host::Constant(2));
    assert!(rt.execute().is_ok());
    assert_eq!(int_of(&rt.read_memory(b"r").unwrap()), 2);
}

#[test]
fn add_then_print_end_to_end() {
    let seen = Rc::new(RefCell::new(Vec::new()));
    let mut b = ScriptBuilder::new();
    store_int(&mut b, b"a", 1);
    store_int(&mut b, b"b", 3);
    call_on_memory(&mut b, b"add", &[b"a", b"b"], b"sum");
    call_on_memory(&mut b, b"print", &[b"sum"], b"");
    let mut rt = Runtime::new(b.get_binary()).ok().unwrap();
    rt.add_native_function(b"add".to_vec(), Host::Add);
    rt.add_native_function(b"print".to_vec(), Host::Print(seen.clone()));
    assert!(rt.execute().is_ok());
    let calls = seen.borrow();
    assert_eq!(calls.len(), 1);
    assert_eq!(calls[0].len(), 1);
    assert_eq!(calls[0][0].ty, DataType::Int);
    assert_eq!(int_of(&calls[0][0]), 4);
}

#[test]
fn unknown_call_target_fails() {
    let mut b = ScriptBuilder::new();
    store_int(&mut b, b"a", 1);
    store_int(&mut b, b"b", 2);
    call_on_memory(&mut b, b"missing", &[b"a"], b"r");
    let mut rt = Runtime::new(b.get_binary()).ok().unwrap();
    rt.add_native_function(b"add".to_vec(), Host::Add);
    match rt.execute() {
        Err(RuntimeError::InvalidLocation(l)) => assert_eq!(l, b"missing".to_vec()),
        _ => panic!("expected an invalid location"),
    }
    assert_eq!(int_of(&rt.read_memory(b"b").unwrap()), 2);
}

#[test]
fn call_with_missing_argument_fails() {
    let mut b = ScriptBuilder::new();
    call_on_memory(&mut b, b"add", &[b"q"], b"r");
    let mut rt = Runtime::new(b.get_binary()).ok().unwrap();
    rt.add_native_function(b"add".to_vec(), Host::Add);
    match rt.execute() {
        Err(RuntimeError::InvalidLocation(l)) => assert_eq!(l, b"q".to_vec()),
        _ => panic!("expected an invalid location"),
    }
}

#[test]
fn declare_function_is_not_implemented() {
    let bytes = [DECLARE_FUNCTION, b'f', 0, 0, TYPE_INT];
    let mut rt = Runtime::<Host>::new(&bytes).ok().unwrap();
    assert!(matches!(rt.execute(), Err(RuntimeError::NotImplemented)));
}

#[test]
fn store_result_reply_handling() {
    let mut t: Table<StoredData> = Table::new();
    assert!(store_result(&mut t, b"r", Ok(int_value(3))).is_ok());
    assert_eq!(int_of(t.get(b"r").unwrap()), 3);
    assert!(store_result(&mut t, b"", Ok(int_value(4))).is_ok());
    assert!(!t.contains_key(b""));
    assert!(matches!(
        store_result(&mut t, b"r", Err(RuntimeError::Generic("no".to_string()))),
        Err(RuntimeError::Generic(_))
    ));
    assert_eq!(int_of(t.get(b"r").unwrap()), 3);
}

#[test]
fn null_value_is_void_and_empty() {
    let n = StoredData::null();
    assert_eq!(n.ty, DataType::Void);
    assert!(n.data.is_empty());
}
