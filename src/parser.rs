use vstd::prelude::*;
use crate::instructions::{
    copy_bytes, tag_of, type_of_tag, AccessData, AccessDataView, AccessLiteral, AccessMemory, Action,
    ActionView, ByteSequence, CallFunction, CallFunctionView, DataType, DeclareFunction,
    DeclareFunctionView, FreeMemory, FunctionArgument, FunctionArgumentView, Literal, StoreMemory,
    StoredDataView, ACCESS_LITERAL, ACCESS_MEMORY, CALL_FUNCTION, DECLARE_FUNCTION, FREE_MEMORY,
    STORE_MEMORY, TYPE_BOOL, TYPE_BYTE, TYPE_FLOAT, TYPE_FUNC, TYPE_INT, TYPE_STRING, TYPE_STRUCT,
    TYPE_TABLE, TYPE_UID, TYPE_VOID,
};
use vstd::slice::slice_subrange;

verus! {

/// Why a byte run is not a well-formed script.
#[derive(Debug)]
pub enum ParseError {
    Generic(String),
}

/// The outcome of a decoder: the input that is left, and the decoded value.
pub type ParseResult<'a, T> = Result<(&'a [u8], T), ParseError>;

/// `i` is the position of the first NUL byte of `s`.
pub open spec fn first_nul(s: Seq<u8>, i: int) -> bool {
    0 <= i < s.len() && s[i] == 0 && forall|j: int| 0 <= j < i ==> s[j] != 0
}

/// A one-byte type tag.
pub open spec fn spec_parse_type(s: Seq<u8>) -> Option<(Seq<u8>, DataType)> {
    if s.len() > 0 && type_of_tag(s[0]) is Some {
        Some((s.drop_first(), type_of_tag(s[0])->0))
    } else {
        None
    }
}

/// Four payload bytes of an int.
pub open spec fn spec_parse_int(s: Seq<u8>) -> Option<(Seq<u8>, Seq<u8>)> {
    if s.len() >= 4 {
        Some((s.subrange(4, s.len() as int), s.subrange(0, 4)))
    } else {
        None
    }
}

/// A run of non-NUL bytes and its NUL terminator, which is dropped.
pub open spec fn spec_parse_string(s: Seq<u8>) -> Option<(Seq<u8>, Seq<u8>)> {
    if exists|i: int| first_nul(s, i) {
        let i = choose|i: int| first_nul(s, i);
        Some((s.subrange(i + 1, s.len() as int), s.subrange(0, i)))
    } else {
        None
    }
}

/// An int or string literal: its type tag, then its payload.
pub open spec fn spec_parse_literal(s: Seq<u8>) -> Option<(Seq<u8>, StoredDataView)> {
    if s.len() > 0 && s[0] == TYPE_INT {
        match spec_parse_int(s.drop_first()) {
            Some((rest, data)) => Some((rest, StoredDataView { ty: DataType::Int, data })),
            None => None,
        }
    } else if s.len() > 0 && s[0] == TYPE_STRING {
        match spec_parse_string(s.drop_first()) {
            Some((rest, data)) => Some((rest, StoredDataView { ty: DataType::String, data })),
            None => None,
        }
    } else {
        None
    }
}

pub open spec fn spec_parse_access_literal(s: Seq<u8>) -> Option<(Seq<u8>, StoredDataView)> {
    if s.len() > 0 && s[0] == ACCESS_LITERAL {
        spec_parse_literal(s.drop_first())
    } else {
        None
    }
}

pub open spec fn spec_parse_access_memory(s: Seq<u8>) -> Option<(Seq<u8>, Seq<u8>)> {
    if s.len() > 0 && s[0] == ACCESS_MEMORY {
        spec_parse_string(s.drop_first())
    } else {
        None
    }
}

/// An operand: a literal or a memory reference.
pub open spec fn spec_parse_access_data(s: Seq<u8>) -> Option<(Seq<u8>, AccessDataView)> {
    match spec_parse_access_literal(s) {
        Some((rest, lit)) => Some((rest, AccessDataView::Literal(lit))),
        None => match spec_parse_access_memory(s) {
            Some((rest, loc)) => Some((rest, AccessDataView::Memory(loc))),
            None => None,
        },
    }
}

pub open spec fn spec_parse_store_memory(s: Seq<u8>) -> Option<(Seq<u8>, ActionView)> {
    if s.len() > 0 && s[0] == STORE_MEMORY {
        match spec_parse_string(s.drop_first()) {
            Some((r1, location)) => match spec_parse_access_data(r1) {
                Some((r2, data)) => Some((r2, ActionView::StoreMemory { location, data })),
                None => None,
            },
            None => None,
        }
    } else {
        None
    }
}

pub open spec fn spec_parse_free_memory(s: Seq<u8>) -> Option<(Seq<u8>, ActionView)> {
    if s.len() > 0 && s[0] == FREE_MEMORY {
        match spec_parse_string(s.drop_first()) {
            Some((rest, location)) => Some((rest, ActionView::FreeMemory(location))),
            None => None,
        }
    } else {
        None
    }
}

pub open spec fn spec_parse_function_argument(s: Seq<u8>) -> Option<(Seq<u8>, FunctionArgumentView)> {
    match spec_parse_type(s) {
        Some((r1, ty)) => match spec_parse_string(r1) {
            Some((r2, location)) => Some((r2, FunctionArgumentView { ty, location })),
            None => None,
        },
        None => None,
    }
}

/// `n` function arguments, one after the other.
pub open spec fn spec_parse_function_arguments(s: Seq<u8>, n: nat) -> Option<(Seq<u8>, Seq<FunctionArgumentView>)>
    decreases n,
{
    if n == 0 {
        Some((s, Seq::empty()))
    } else {
        match spec_parse_function_arguments(s, (n - 1) as nat) {
            Some((r1, args)) => match spec_parse_function_argument(r1) {
                Some((r2, a)) => Some((r2, args.push(a))),
                None => None,
            },
            None => None,
        }
    }
}

/// `n` operands, one after the other.
pub open spec fn spec_parse_access_list(s: Seq<u8>, n: nat) -> Option<(Seq<u8>, Seq<AccessDataView>)>
    decreases n,
{
    if n == 0 {
        Some((s, Seq::empty()))
    } else {
        match spec_parse_access_list(s, (n - 1) as nat) {
            Some((r1, args)) => match spec_parse_access_data(r1) {
                Some((r2, a)) => Some((r2, args.push(a))),
                None => None,
            },
            None => None,
        }
    }
}

pub open spec fn spec_parse_declare_function(s: Seq<u8>) -> Option<(Seq<u8>, ActionView)> {
    if s.len() > 0 && s[0] == DECLARE_FUNCTION {
        match spec_parse_string(s.drop_first()) {
            Some((r1, location)) => if r1.len() > 0 {
                let arg_count = r1[0];
                match spec_parse_function_arguments(r1.drop_first(), arg_count as nat) {
                    Some((r2, args)) => match spec_parse_type(r2) {
                        Some((r3, return_ty)) => Some((
                            r3,
                            ActionView::DeclareFunction(
                                DeclareFunctionView {
                                    location,
                                    arg_count,
                                    args,
                                    return_ty,
                                    statements: Seq::empty(),
                                },
                            ),
                        )),
                        None => None,
                    },
                    None => None,
                }
            } else {
                None
            },
            None => None,
        }
    } else {
        None
    }
}

pub open spec fn spec_parse_call_function(s: Seq<u8>) -> Option<(Seq<u8>, ActionView)> {
    if s.len() > 0 && s[0] == CALL_FUNCTION {
        match spec_parse_string(s.drop_first()) {
            Some((r1, location)) => if r1.len() > 0 {
                let arg_count = r1[0];
                match spec_parse_access_list(r1.drop_first(), arg_count as nat) {
                    Some((r2, args)) => match spec_parse_string(r2) {
                        Some((r3, result_location)) => Some((
                            r3,
                            ActionView::CallFunction(
                                CallFunctionView { location, arg_count, args, result_location },
                            ),
                        )),
                        None => None,
                    },
                    None => None,
                }
            } else {
                None
            },
            None => None,
        }
    } else {
        None
    }
}

/// One action, selected by its opcode.
pub open spec fn spec_parse_action(s: Seq<u8>) -> Option<(Seq<u8>, ActionView)> {
    if s.len() == 0 {
        None
    } else if s[0] == STORE_MEMORY {
        spec_parse_store_memory(s)
    } else if s[0] == FREE_MEMORY {
        spec_parse_free_memory(s)
    } else if s[0] == DECLARE_FUNCTION {
        spec_parse_declare_function(s)
    } else if s[0] == CALL_FUNCTION {
        spec_parse_call_function(s)
    } else {
        None
    }
}

/// As many actions as can be decoded from the front of `s`, and what is left after them.
pub open spec fn spec_parse_script(s: Seq<u8>) -> (Seq<u8>, Seq<ActionView>)
    decreases s.len(),
{
    match spec_parse_action(s) {
        Some((rest, a)) => if rest.len() < s.len() {
            let (tail, acts) = spec_parse_script(rest);
            (tail, seq![a].add(acts))
        } else {
            (s, Seq::empty())
        },
        None => (s, Seq::empty()),
    }
}

/// Ties an executable decoder's result to its grammar rule.
pub open spec fn parsed_as<T: View>(r: Result<(&[u8], T), ParseError>, spec: Option<(Seq<u8>, T::V)>) -> bool {
    match r {
        Ok((rest, v)) => spec == Some((rest@, v@)),
        Err(_) => spec is None,
    }
}

fn fail<'a, T>() -> (r: ParseResult<'a, T>)
    ensures
        r is Err,
{
    Err(ParseError::Generic(String::from_str("malformed script")))
}

fn drop_first(input: &[u8]) -> (r: &[u8])
    requires
        input@.len() > 0,
    ensures
        r@ == input@.drop_first(),
{
    slice_subrange(input, 1, input.len())
}

pub fn parse_type(input: &[u8]) -> (r: Result<(&[u8], DataType), ParseError>)
    ensures
        match r {
            Ok((rest, ty)) => spec_parse_type(input@) == Some((rest@, ty)),
            Err(_) => spec_parse_type(input@) is None,
        },
{
    if input.len() == 0 {
        return fail();
    }
    let b = input[0];
    let ty = if b == TYPE_VOID {
        DataType::Void
    } else if b == TYPE_BYTE {
        DataType::Byte
    } else if b == TYPE_BOOL {
        DataType::Bool
    } else if b == TYPE_INT {
        DataType::Int
    } else if b == TYPE_FLOAT {
        DataType::Float
    } else if b == TYPE_STRING {
        DataType::String
    } else if b == TYPE_UID {
        DataType::UID
    } else if b == TYPE_FUNC {
        DataType::Func
    } else if b == TYPE_TABLE {
        DataType::Table
    } else if b == TYPE_STRUCT {
        DataType::Struct
    } else {
        return fail();
    };
    Ok((drop_first(input), ty))
}

pub fn parse_int(input: &[u8]) -> (r: Result<(&[u8], ByteSequence), ParseError>)
    ensures
        parsed_as(r, spec_parse_int(input@)),
{
    if input.len() < 4 {
        return fail();
    }
    let data = copy_bytes(slice_subrange(input, 0, 4));
    Ok((slice_subrange(input, 4, input.len()), data))
}

pub fn parse_string(input: &[u8]) -> (r: Result<(&[u8], ByteSequence), ParseError>)
    ensures
        parsed_as(r, spec_parse_string(input@)),
        r is Ok ==> r->Ok_0.0@.len() < input@.len(),
{
    let mut i: usize = 0;
    while i < input.len() && input[i] != 0
        invariant
            i <= input@.len(),
            forall|j: int| 0 <= j < i ==> input@[j] != 0,
        decreases input@.len() - i,
    {
        i = i + 1;
    }
    if i == input.len() {
        assert(!exists|k: int| first_nul(input@, k));
        return fail();
    }
    assert(first_nul(input@, i as int));
    proof {
        let k = choose|k: int| first_nul(input@, k);
        assert(!(k < i) && !(i < k));
    }
    let data = copy_bytes(slice_subrange(input, 0, i));
    Ok((slice_subrange(input, i + 1, input.len()), data))
}

pub fn parse_literal(input: &[u8]) -> (r: Result<(&[u8], Literal), ParseError>)
    ensures
        parsed_as(r, spec_parse_literal(input@)),
{
    if input.len() > 0 && input[0] == TYPE_INT {
        let (rest, data) = parse_int(drop_first(input))?;
        Ok((rest, Literal { ty: DataType::Int, data }))
    } else if input.len() > 0 && input[0] == TYPE_STRING {
        let (rest, data) = parse_string(drop_first(input))?;
        Ok((rest, Literal { ty: DataType::String, data }))
    } else {
        fail()
    }
}

pub fn parse_access_literal(input: &[u8]) -> (r: Result<(&[u8], AccessLiteral), ParseError>)
    ensures
        parsed_as(r, spec_parse_access_literal(input@)),
{
    if input.len() > 0 && input[0] == ACCESS_LITERAL {
        let (rest, literal) = parse_literal(drop_first(input))?;
        Ok((rest, AccessLiteral(literal)))
    } else {
        fail()
    }
}

pub fn parse_access_memory(input: &[u8]) -> (r: Result<(&[u8], AccessMemory), ParseError>)
    ensures
        parsed_as(r, spec_parse_access_memory(input@)),
{
    if input.len() > 0 && input[0] == ACCESS_MEMORY {
        let (rest, location) = parse_string(drop_first(input))?;
        Ok((rest, AccessMemory(location)))
    } else {
        fail()
    }
}

pub fn parse_access_data(input: &[u8]) -> (r: Result<(&[u8], AccessData), ParseError>)
    ensures
        parsed_as(r, spec_parse_access_data(input@)),
        r is Ok ==> r->Ok_0.0@.len() < input@.len(),
{
    match parse_access_literal(input) {
        Ok((rest, access)) => {
            return Ok((rest, AccessData::Literal(access)));
        },
        Err(_) => {},
    }
    let (rest, access) = parse_access_memory(input)?;
    Ok((rest, AccessData::Memory(access)))
}

pub fn parse_store_memory(input: &[u8]) -> (r: Result<(&[u8], StoreMemory), ParseError>)
    ensures
        match r {
            Ok((rest, a)) => spec_parse_store_memory(input@) == Some(
                (rest@, ActionView::StoreMemory { location: a.location@, data: a.data@ }),
            ),
            Err(_) => spec_parse_store_memory(input@) is None,
        },
{
    if input.len() == 0 || input[0] != STORE_MEMORY {
        return fail();
    }
    let (input, location) = parse_string(drop_first(input))?;
    let (input, data) = parse_access_data(input)?;
    Ok((input, StoreMemory { location, data }))
}

pub fn parse_free_memory(input: &[u8]) -> (r: Result<(&[u8], FreeMemory), ParseError>)
    ensures
        match r {
            Ok((rest, a)) => spec_parse_free_memory(input@) == Some(
                (rest@, ActionView::FreeMemory(a.0@)),
            ),
            Err(_) => spec_parse_free_memory(input@) is None,
        },
{
    if input.len() == 0 || input[0] != FREE_MEMORY {
        return fail();
    }
    let (input, location) = parse_string(drop_first(input))?;
    Ok((input, FreeMemory(location)))
}

pub fn parse_function_argument(input: &[u8]) -> (r: Result<(&[u8], FunctionArgument), ParseError>)
    ensures
        parsed_as(r, spec_parse_function_argument(input@)),
{
    let (input, ty) = parse_type(input)?;
    let (input, location) = parse_string(input)?;
    Ok((input, FunctionArgument { ty, location }))
}

pub fn parse_declare_function(input: &[u8]) -> (r: Result<(&[u8], DeclareFunction), ParseError>)
    ensures
        match r {
            Ok((rest, d)) => spec_parse_declare_function(input@) == Some(
                (rest@, ActionView::DeclareFunction(d@)),
            ),
            Err(_) => spec_parse_declare_function(input@) is None,
        },
        r is Ok ==> r->Ok_0.0@.len() < input@.len(),
{
    if input.len() == 0 || input[0] != DECLARE_FUNCTION {
        return fail();
    }
    let ghost input_start = input@;
    let (after_location, location) = parse_string(drop_first(input))?;
    let ghost r1 = after_location@;
    if after_location.len() == 0 {
        return fail();
    }
    let arg_count = after_location[0];
    let ghost start = after_location@.drop_first();
    let mut rest = drop_first(after_location);
    let mut args: Vec<FunctionArgument> = Vec::new();
    let mut k: u8 = 0;
    while k < arg_count
        invariant
            k <= arg_count,
            spec_parse_function_arguments(start, k as nat) == Some(
                (rest@, args@.map_values(|a: FunctionArgument| a@)),
            ),
            rest@.len() <= start.len(),
            input_start == input@,
            input_start.len() > 0,
            spec_parse_string(input_start.drop_first()) == Some((r1, location@)),
            r1.len() > 0,
            r1[0] == arg_count,
            start == r1.drop_first(),
        decreases arg_count - k,
    {
        let ghost prev = args@;
        match parse_function_argument(rest) {
            Ok((next, a)) => {
                args.push(a);
                rest = next;
                assert(args@.map_values(|a: FunctionArgument| a@) =~= prev.map_values(
                    |a: FunctionArgument| a@,
                ).push(a@));
            },
            Err(e) => {
                proof {
                    lemma_function_arguments_fail(start, k as nat, arg_count as nat);
                }
                return Err(e);
            },
        }
        k = k + 1;
    }
    let (rest, return_ty) = parse_type(rest)?;
    let statements: Vec<()> = Vec::new();
    assert(statements@ =~= Seq::<()>::empty());
    Ok((rest, DeclareFunction { location, arg_count, args, return_ty, statements }))
}

proof fn lemma_function_arguments_fail(s: Seq<u8>, k: nat, n: nat)
    requires
        k < n,
        spec_parse_function_arguments(s, k) matches Some((r, _)) && spec_parse_function_argument(
            r,
        ) is None,
    ensures
        spec_parse_function_arguments(s, n) is None,
    decreases n - k,
{
    if k + 1 < n {
        lemma_function_arguments_none_stays(s, k + 1, n);
    }
}

proof fn lemma_function_arguments_none_stays(s: Seq<u8>, k: nat, n: nat)
    requires
        k <= n,
        spec_parse_function_arguments(s, k) is None,
    ensures
        spec_parse_function_arguments(s, n) is None,
    decreases n - k,
{
    if k < n {
        lemma_function_arguments_none_stays(s, k + 1, n);
    }
}

proof fn lemma_access_list_fail(s: Seq<u8>, k: nat, n: nat)
    requires
        k < n,
        spec_parse_access_list(s, k) matches Some((r, _)) && spec_parse_access_data(r) is None,
    ensures
        spec_parse_access_list(s, n) is None,
    decreases n - k,
{
    if k + 1 < n {
        lemma_access_list_none_stays(s, k + 1, n);
    }
}

proof fn lemma_access_list_none_stays(s: Seq<u8>, k: nat, n: nat)
    requires
        k <= n,
        spec_parse_access_list(s, k) is None,
    ensures
        spec_parse_access_list(s, n) is None,
    decreases n - k,
{
    if k < n {
        lemma_access_list_none_stays(s, k + 1, n);
    }
}

pub fn parse_call_function(input: &[u8]) -> (r: Result<(&[u8], CallFunction), ParseError>)
    ensures
        match r {
            Ok((rest, c)) => spec_parse_call_function(input@) == Some(
                (rest@, ActionView::CallFunction(c@)),
            ),
            Err(_) => spec_parse_call_function(input@) is None,
        },
        r is Ok ==> r->Ok_0.0@.len() < input@.len(),
{
    if input.len() == 0 || input[0] != CALL_FUNCTION {
        return fail();
    }
    let ghost input_start = input@;
    let (after_location, location) = parse_string(drop_first(input))?;
    let ghost r1 = after_location@;
    if after_location.len() == 0 {
        return fail();
    }
    let arg_count = after_location[0];
    let ghost start = after_location@.drop_first();
    let mut rest = drop_first(after_location);
    let mut args: Vec<AccessData> = Vec::new();
    let mut k: u8 = 0;
    while k < arg_count
        invariant
            k <= arg_count,
            spec_parse_access_list(start, k as nat) == Some(
                (rest@, args@.map_values(|a: AccessData| a@)),
            ),
            rest@.len() <= start.len(),
            input_start == input@,
            input_start.len() > 0,
            spec_parse_string(input_start.drop_first()) == Some((r1, location@)),
            r1.len() > 0,
            r1[0] == arg_count,
            start == r1.drop_first(),
        decreases arg_count - k,
    {
        let ghost prev = args@;
        match parse_access_data(rest) {
            Ok((next, a)) => {
                args.push(a);
                rest = next;
                assert(args@.map_values(|a: AccessData| a@) =~= prev.map_values(
                    |a: AccessData| a@,
                ).push(a@));
            },
            Err(e) => {
                proof {
                    lemma_access_list_fail(start, k as nat, arg_count as nat);
                }
                return Err(e);
            },
        }
        k = k + 1;
    }
    let (rest, result_location) = parse_string(rest)?;
    Ok((rest, CallFunction { location, arg_count, args, result_location }))
}

/// Decodes one action.
pub fn parse_action(input: &[u8]) -> (r: Result<(&[u8], Action), ParseError>)
    ensures
        parsed_as(r, spec_parse_action(input@)),
        r is Ok ==> r->Ok_0.0@.len() < input@.len(),
{
    if input.len() == 0 {
        return fail();
    }
    let op = input[0];
    if op == STORE_MEMORY {
        let (rest, x) = parse_store_memory(input)?;
        Ok((rest, Action::StoreMemory(x)))
    } else if op == FREE_MEMORY {
        let (rest, x) = parse_free_memory(input)?;
        Ok((rest, Action::FreeMemory(x)))
    } else if op == DECLARE_FUNCTION {
        let (rest, x) = parse_declare_function(input)?;
        Ok((rest, Action::DeclareFunction(x)))
    } else if op == CALL_FUNCTION {
        let (rest, x) = parse_call_function(input)?;
        Ok((rest, Action::CallFunction(x)))
    } else {
        fail()
    }
}

/// Decodes actions from the front of `input` until one fails to decode or the input ends.
pub fn parse_script(input: &[u8]) -> (r: Result<(&[u8], Vec<Action>), ParseError>)
    ensures
        r is Ok,
        r matches Ok((rest, actions)) && spec_parse_script(input@) == (
            rest@,
            actions@.map_values(|a: Action| a@),
        ),
{
    let mut actions: Vec<Action> = Vec::new();
    let mut rest = input;
    while rest.len() > 0
        invariant
            ({
                let (tail, acts) = spec_parse_script(rest@);
                spec_parse_script(input@) == (tail, actions@.map_values(|a: Action| a@).add(acts))
            }),
        ensures
            spec_parse_action(rest@) is None,
        decreases rest@.len(),
    {
        match parse_action(rest) {
            Ok((next, a)) => {
                let ghost prev = actions@;
                let ghost av = a@;
                actions.push(a);
                proof {
                    let (tail, acts) = spec_parse_script(next@);
                    assert(spec_parse_script(rest@) == (tail, seq![av].add(acts)));
                    assert(actions@.map_values(|a: Action| a@) =~= prev.map_values(|a: Action| a@).push(av));
                    assert(prev.map_values(|a: Action| a@).add(seq![av].add(acts)) =~= actions@.map_values(|a: Action| a@).add(acts));
                }
                rest = next;
            },
            Err(_) => {
                break;
            },
        }
    }
    proof {
        let (tail, acts) = spec_parse_script(rest@);
        assert(acts =~= Seq::<ActionView>::empty());
        assert(actions@.map_values(|a: Action| a@).add(acts) =~= actions@.map_values(|a: Action| a@));
    }
    Ok((rest, actions))
}

} // verus!
