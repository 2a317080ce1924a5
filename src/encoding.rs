use vstd::prelude::*;
use crate::instructions::{
    tag_of, type_of_tag, AccessDataView, ActionView, DataType, FunctionArgumentView, StoredDataView,
    ACCESS_LITERAL, ACCESS_MEMORY, CALL_FUNCTION, DECLARE_FUNCTION, FREE_MEMORY, STORE_MEMORY,
    TYPE_INT, TYPE_STRING,
};
use crate::parser::{
    first_nul, spec_parse_access_data, spec_parse_access_list, spec_parse_action,
    spec_parse_function_argument, spec_parse_function_arguments, spec_parse_script,
    spec_parse_string, spec_parse_type,
};

verus! {

/// A byte run that holds no NUL, so that it can stand as a string on the wire.
pub open spec fn no_nul(s: Seq<u8>) -> bool {
    forall|i: int| 0 <= i < s.len() ==> s[i] != 0
}

/// A string on the wire: its bytes and a NUL terminator.
pub open spec fn encode_string(s: Seq<u8>) -> Seq<u8> {
    s.push(0)
}

/// A literal that the wire format can carry: an int of four bytes, or a string.
pub open spec fn encodable_literal(v: StoredDataView) -> bool {
    (v.ty == DataType::Int && v.data.len() == 4) || (v.ty == DataType::String && no_nul(v.data))
}

pub open spec fn encode_literal(v: StoredDataView) -> Seq<u8> {
    if v.ty == DataType::Int {
        seq![tag_of(v.ty)] + v.data
    } else {
        seq![tag_of(v.ty)] + encode_string(v.data)
    }
}

pub open spec fn encodable_access(a: AccessDataView) -> bool {
    match a {
        AccessDataView::Literal(v) => encodable_literal(v),
        AccessDataView::Memory(l) => no_nul(l),
    }
}

pub open spec fn encode_access(a: AccessDataView) -> Seq<u8> {
    match a {
        AccessDataView::Literal(v) => seq![ACCESS_LITERAL] + encode_literal(v),
        AccessDataView::Memory(l) => seq![ACCESS_MEMORY] + encode_string(l),
    }
}

pub open spec fn encode_access_list(args: Seq<AccessDataView>) -> Seq<u8>
    decreases args.len(),
{
    if args.len() == 0 {
        Seq::empty()
    } else {
        encode_access_list(args.drop_last()) + encode_access(args.last())
    }
}

pub open spec fn encode_function_arguments(args: Seq<FunctionArgumentView>) -> Seq<u8>
    decreases args.len(),
{
    if args.len() == 0 {
        Seq::empty()
    } else {
        encode_function_arguments(args.drop_last()) + (seq![tag_of(args.last().ty)]
            + encode_string(args.last().location))
    }
}

/// An action that the wire format can carry: NUL-free locations, encodable operands,
/// a count that matches its list, and a declaration with no statements.
pub open spec fn encodable_action(a: ActionView) -> bool {
    match a {
        ActionView::StoreMemory { location, data } => no_nul(location) && encodable_access(data),
        ActionView::FreeMemory(l) => no_nul(l),
        ActionView::DeclareFunction(d) => {
            &&& no_nul(d.location)
            &&& d.arg_count as nat == d.args.len()
            &&& forall|i: int| 0 <= i < d.args.len() ==> no_nul(#[trigger] d.args[i].location)
            &&& d.statements.len() == 0
        },
        ActionView::CallFunction(c) => {
            &&& no_nul(c.location)
            &&& no_nul(c.result_location)
            &&& c.arg_count as nat == c.args.len()
            &&& forall|i: int| 0 <= i < c.args.len() ==> encodable_access(#[trigger] c.args[i])
        },
    }
}

pub open spec fn encode_action(a: ActionView) -> Seq<u8> {
    match a {
        ActionView::StoreMemory { location, data } => seq![STORE_MEMORY] + encode_string(location)
            + encode_access(data),
        ActionView::FreeMemory(l) => seq![FREE_MEMORY] + encode_string(l),
        ActionView::DeclareFunction(d) => seq![DECLARE_FUNCTION] + encode_string(d.location) + seq![
            d.arg_count,
        ] + encode_function_arguments(d.args) + seq![tag_of(d.return_ty)],
        ActionView::CallFunction(c) => seq![CALL_FUNCTION] + encode_string(c.location) + seq![
            c.arg_count,
        ] + encode_access_list(c.args) + encode_string(c.result_location),
    }
}

pub open spec fn encode_script(actions: Seq<ActionView>) -> Seq<u8>
    decreases actions.len(),
{
    if actions.len() == 0 {
        Seq::empty()
    } else {
        encode_action(actions[0]) + encode_script(actions.drop_first())
    }
}

proof fn lemma_string_round_trip(s: Seq<u8>, rest: Seq<u8>)
    requires
        no_nul(s),
    ensures
        spec_parse_string(encode_string(s) + rest) == Some((rest, s)),
{
    let x = encode_string(s) + rest;
    let n = s.len() as int;
    assert(x[n] == 0);
    assert(first_nul(x, n));
    let k = choose|k: int| first_nul(x, k);
    assert(!(k < n) && !(n < k));
    assert(x.subrange(n + 1, x.len() as int) =~= rest);
    assert(x.subrange(0, n) =~= s);
}

proof fn lemma_access_round_trip(a: AccessDataView, rest: Seq<u8>)
    requires
        encodable_access(a),
    ensures
        spec_parse_access_data(encode_access(a) + rest) == Some((rest, a)),
{
    let x = encode_access(a) + rest;
    match a {
        AccessDataView::Literal(v) => {
            assert(x.drop_first() =~= encode_literal(v) + rest);
            let y = encode_literal(v) + rest;
            if v.ty == DataType::Int {
                assert(y[0] == TYPE_INT);
                assert(y.drop_first() =~= v.data + rest);
                assert((v.data + rest).subrange(4, (v.data + rest).len() as int) =~= rest);
                assert((v.data + rest).subrange(0, 4) =~= v.data);
            } else {
                assert(y[0] == TYPE_STRING);
                assert(y.drop_first() =~= encode_string(v.data) + rest);
                lemma_string_round_trip(v.data, rest);
            }
        },
        AccessDataView::Memory(l) => {
            assert(x.drop_first() =~= encode_string(l) + rest);
            lemma_string_round_trip(l, rest);
        },
    }
}

proof fn lemma_access_list_round_trip(args: Seq<AccessDataView>, rest: Seq<u8>)
    requires
        forall|i: int| 0 <= i < args.len() ==> encodable_access(#[trigger] args[i]),
    ensures
        spec_parse_access_list(encode_access_list(args) + rest, args.len()) == Some((rest, args)),
    decreases args.len(),
{
    if args.len() == 0 {
        assert(encode_access_list(args) + rest =~= rest);
        assert(args =~= Seq::<AccessDataView>::empty());
    } else {
        let init = args.drop_last();
        let tail = encode_access(args.last()) + rest;
        assert(encodable_access(args[args.len() - 1]));
        lemma_access_list_round_trip(init, tail);
        assert(encode_access_list(args) + rest =~= encode_access_list(init) + tail);
        lemma_access_round_trip(args.last(), rest);
        assert(init.push(args.last()) =~= args);
    }
}

proof fn lemma_type_round_trip(ty: DataType, rest: Seq<u8>)
    ensures
        spec_parse_type(seq![tag_of(ty)] + rest) == Some((rest, ty)),
{
    assert((seq![tag_of(ty)] + rest).drop_first() =~= rest);
    assert(type_of_tag(tag_of(ty)) == Some(ty));
}

proof fn lemma_function_arguments_round_trip(args: Seq<FunctionArgumentView>, rest: Seq<u8>)
    requires
        forall|i: int| 0 <= i < args.len() ==> no_nul(#[trigger] args[i].location),
    ensures
        spec_parse_function_arguments(encode_function_arguments(args) + rest, args.len()) == Some(
            (rest, args),
        ),
    decreases args.len(),
{
    if args.len() == 0 {
        assert(encode_function_arguments(args) + rest =~= rest);
        assert(args =~= Seq::<FunctionArgumentView>::empty());
    } else {
        let init = args.drop_last();
        let a = args.last();
        let tail = (seq![tag_of(a.ty)] + encode_string(a.location)) + rest;
        assert(no_nul(args[args.len() - 1].location));
        assert forall|i: int| 0 <= i < init.len() implies no_nul(#[trigger] init[i].location) by {
            assert(init[i] == args[i]);
        }
        lemma_function_arguments_round_trip(init, tail);
        assert(encode_function_arguments(args) + rest =~= encode_function_arguments(init) + tail);
        assert(tail =~= seq![tag_of(a.ty)] + (encode_string(a.location) + rest));
        lemma_type_round_trip(a.ty, encode_string(a.location) + rest);
        lemma_string_round_trip(a.location, rest);
        assert(spec_parse_function_argument(tail) == Some((rest, a)));
        assert(init.push(a) =~= args);
    }
}

/// Decoding the wire form of an encodable action gives that action back, and leaves
/// the bytes after it untouched.
pub proof fn lemma_action_round_trip(a: ActionView, rest: Seq<u8>)
    requires
        encodable_action(a),
    ensures
        spec_parse_action(encode_action(a) + rest) == Some((rest, a)),
{
    let x = encode_action(a) + rest;
    match a {
        ActionView::StoreMemory { location, data } => {
            assert(x.drop_first() =~= encode_string(location) + (encode_access(data) + rest));
            lemma_string_round_trip(location, encode_access(data) + rest);
            lemma_access_round_trip(data, rest);
        },
        ActionView::FreeMemory(l) => {
            assert(x.drop_first() =~= encode_string(l) + rest);
            lemma_string_round_trip(l, rest);
        },
        ActionView::DeclareFunction(d) => {
            let after_args = seq![tag_of(d.return_ty)] + rest;
            let r1 = seq![d.arg_count] + (encode_function_arguments(d.args) + after_args);
            assert(x.drop_first() =~= encode_string(d.location) + r1);
            lemma_string_round_trip(d.location, r1);
            assert(r1.drop_first() =~= encode_function_arguments(d.args) + after_args);
            lemma_function_arguments_round_trip(d.args, after_args);
            lemma_type_round_trip(d.return_ty, rest);
            assert(d.statements =~= Seq::<()>::empty());
        },
        ActionView::CallFunction(c) => {
            let after_args = encode_string(c.result_location) + rest;
            let r1 = seq![c.arg_count] + (encode_access_list(c.args) + after_args);
            assert(x.drop_first() =~= encode_string(c.location) + r1);
            lemma_string_round_trip(c.location, r1);
            assert(r1.drop_first() =~= encode_access_list(c.args) + after_args);
            lemma_access_list_round_trip(c.args, after_args);
            lemma_string_round_trip(c.result_location, rest);
        },
    }
}

/// Decoding the wire form of a sequence of encodable actions gives exactly those
/// actions, with no bytes left over.
pub proof fn lemma_script_round_trip(actions: Seq<ActionView>)
    requires
        forall|i: int| 0 <= i < actions.len() ==> encodable_action(#[trigger] actions[i]),
    ensures
        spec_parse_script(encode_script(actions)) == (Seq::<u8>::empty(), actions),
    decreases actions.len(),
{
    if actions.len() == 0 {
        assert(spec_parse_action(Seq::<u8>::empty()) is None);
        assert(actions =~= Seq::<ActionView>::empty());
    } else {
        let tail = actions.drop_first();
        assert forall|i: int| 0 <= i < tail.len() implies encodable_action(#[trigger] tail[i]) by {
            assert(tail[i] == actions[i + 1]);
        }
        lemma_script_round_trip(tail);
        assert(encodable_action(actions[0]));
        lemma_action_round_trip(actions[0], encode_script(tail));
        assert(seq![actions[0]] + tail =~= actions);
    }
}

} // verus!
