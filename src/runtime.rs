use vstd::prelude::*;
use crate::functions::{DefinedFunction, NativeFunction};
use crate::instructions::{
    copy_bytes, AccessData, AccessDataView, Action, ActionView, CallFunctionView, MemoryLocation, StoredData,
    StoredDataView, DataType,
};
use crate::parser::{parse_script, spec_parse_script, ParseError};
use crate::table::Table;

verus! {

#[derive(Debug)]
pub enum RuntimeError {
    Generic(String),
    InvalidLocation(MemoryLocation),
    InvalidArgument(DataType, DataType),
    InvalidArgumentCount(u8, u8),
    /// The action or the function kind has no execution semantics yet.
    NotImplemented,
}

/// What a native function answered to one call.
pub type Reply = Result<StoredDataView, RuntimeError>;

/// How far an execution got after an action.
pub enum Outcome {
    Continue,
    InvalidLocation(Seq<u8>),
    CallFailed(RuntimeError),
    NotImplemented,
}

/// Memory contents in the abstract.
pub open spec fn memory_view(t: Table<StoredData>) -> Map<Seq<u8>, StoredDataView> {
    t@.map_values(|v: StoredData| v@)
}

/// The value an operand denotes in `mem`, if its location exists.
pub open spec fn resolve(mem: Map<Seq<u8>, StoredDataView>, a: AccessDataView) -> Option<StoredDataView> {
    match a {
        AccessDataView::Literal(v) => Some(v),
        AccessDataView::Memory(l) => if mem.contains_key(l) {
            Some(mem[l])
        } else {
            None
        },
    }
}

/// The values of a list of operands, or the first location among them that does not exist.
pub open spec fn resolve_all(mem: Map<Seq<u8>, StoredDataView>, args: Seq<AccessDataView>) -> Result<Seq<StoredDataView>, Seq<u8>>
    decreases args.len(),
{
    if args.len() == 0 {
        Ok(Seq::empty())
    } else {
        match resolve_all(mem, args.drop_last()) {
            Err(l) => Err(l),
            Ok(vs) => match resolve(mem, args.last()) {
                Some(v) => Ok(vs.push(v)),
                None => Err(args.last()->Memory_0),
            },
        }
    }
}

/// Memory after a call's reply has been handled: the result is stored unless the
/// result location is empty.
pub open spec fn store_reply(mem: Map<Seq<u8>, StoredDataView>, result_location: Seq<u8>, v: StoredDataView) -> Map<Seq<u8>, StoredDataView> {
    if result_location.len() == 0 {
        mem
    } else {
        mem.insert(result_location, v)
    }
}

/// One action applied to memory `mem`, with the functions named in `defs` defined;
/// `reply` is what the native function answers, where the action calls one.
pub open spec fn step(mem: Map<Seq<u8>, StoredDataView>, defs: Set<Seq<u8>>, a: ActionView, reply: Reply) -> (Map<Seq<u8>, StoredDataView>, Outcome) {
    match a {
        ActionView::StoreMemory { location, data } => match resolve(mem, data) {
            Some(v) => (mem.insert(location, v), Outcome::Continue),
            None => (mem, Outcome::InvalidLocation(data->Memory_0)),
        },
        ActionView::FreeMemory(l) => if mem.contains_key(l) {
            (mem.remove(l), Outcome::Continue)
        } else {
            (mem, Outcome::InvalidLocation(l))
        },
        ActionView::DeclareFunction(_) => (mem, Outcome::NotImplemented),
        ActionView::CallFunction(c) => if !defs.contains(c.location) {
            (mem, Outcome::InvalidLocation(c.location))
        } else {
            match resolve_all(mem, c.args) {
                Err(l) => (mem, Outcome::InvalidLocation(l)),
                Ok(_) => match reply {
                    Ok(v) => (store_reply(mem, c.result_location, v), Outcome::Continue),
                    Err(e) => (mem, Outcome::CallFailed(e)),
                },
            }
        },
    }
}

/// The actions applied in order from memory `mem`, stopping at the first that fails;
/// `replies[i]` is the native reply to action `i`.
pub open spec fn run(mem: Map<Seq<u8>, StoredDataView>, defs: Set<Seq<u8>>, actions: Seq<ActionView>, replies: Seq<Reply>) -> (Map<Seq<u8>, StoredDataView>, Outcome)
    decreases actions.len(),
{
    if actions.len() == 0 {
        (mem, Outcome::Continue)
    } else {
        let (m, o) = run(mem, defs, actions.drop_last(), replies.drop_last());
        if o is Continue {
            step(m, defs, actions.last(), replies.last())
        } else {
            (m, o)
        }
    }
}

/// `r` is what an execution that ended in `o` returns.
pub open spec fn reports(r: Result<(), RuntimeError>, o: Outcome) -> bool {
    match o {
        Outcome::Continue => r is Ok,
        Outcome::InvalidLocation(l) => r matches Err(RuntimeError::InvalidLocation(v)) && v@ == l,
        Outcome::CallFailed(e) => r == Err::<(), RuntimeError>(e),
        Outcome::NotImplemented => r matches Err(RuntimeError::NotImplemented),
    }
}

/// A native function's answer in the abstract.
pub open spec fn reply_of(r: Result<StoredData, RuntimeError>) -> Reply {
    match r {
        Ok(v) => Ok(v@),
        Err(e) => Err(e),
    }
}

/// Replies that no action reads: they fill the replies of the actions after a failure.
pub open spec fn unused_replies(n: nat) -> Seq<Reply> {
    Seq::new(n, |j: int| Err(RuntimeError::NotImplemented))
}

proof fn lemma_run_halted(mem: Map<Seq<u8>, StoredDataView>, defs: Set<Seq<u8>>, actions: Seq<ActionView>, replies: Seq<Reply>, more: Seq<ActionView>)
    requires
        !(run(mem, defs, actions, replies).1 is Continue),
    ensures
        run(mem, defs, actions + more, replies + unused_replies(more.len())) == run(mem, defs, actions, replies),
    decreases more.len(),
{
    if more.len() == 0 {
        assert(actions + more =~= actions);
        assert(replies + unused_replies(0) =~= replies);
    } else {
        lemma_run_halted(mem, defs, actions, replies, more.drop_last());
        assert((actions + more).drop_last() =~= actions + more.drop_last());
        assert((replies + unused_replies(more.len())).drop_last() =~= replies + unused_replies((more.len() - 1) as nat));
    }
}

/// Freeing a cell that exists removes it and succeeds; freeing it a second time
/// fails with an invalid location naming it.
pub proof fn lemma_free_twice(mem: Map<Seq<u8>, StoredDataView>, defs: Set<Seq<u8>>, l: Seq<u8>, replies: Seq<Reply>)
    requires
        mem.contains_key(l),
        replies.len() == 2,
    ensures
        step(mem, defs, ActionView::FreeMemory(l), replies[0]) == (mem.remove(l), Outcome::Continue),
        run(mem, defs, seq![ActionView::FreeMemory(l), ActionView::FreeMemory(l)], replies) == (
            mem.remove(l),
            Outcome::InvalidLocation(l),
        ),
{
    let acts = seq![ActionView::FreeMemory(l), ActionView::FreeMemory(l)];
    assert(acts.drop_last().drop_last() =~= Seq::<ActionView>::empty());
    assert(run(mem, defs, acts.drop_last().drop_last(), replies.drop_last().drop_last()) == (mem, Outcome::Continue));
    assert(acts.drop_last().last() == ActionView::FreeMemory(l));
    assert(run(mem, defs, acts.drop_last(), replies.drop_last()) == (mem.remove(l), Outcome::Continue));
}

/// Storing a literal at `l` and then a copy of `l` at `m` leaves both cells holding
/// the literal. The copy is independent: storing another value at either cell
/// afterwards leaves the other as it was.
pub proof fn lemma_store_then_copy(mem: Map<Seq<u8>, StoredDataView>, defs: Set<Seq<u8>>, l: Seq<u8>, m: Seq<u8>, v: StoredDataView, w: StoredDataView, replies: Seq<Reply>)
    requires
        l != m,
        replies.len() == 3,
    ensures
        ({
            let copy = seq![
                ActionView::StoreMemory { location: l, data: AccessDataView::Literal(v) },
                ActionView::StoreMemory { location: m, data: AccessDataView::Memory(l) },
            ];
            let (m2, o2) = run(mem, defs, copy, replies.take(2));
            let (m3, o3) = run(mem, defs, copy.push(ActionView::StoreMemory { location: l, data: AccessDataView::Literal(w) }), replies);
            let (m4, o4) = run(mem, defs, copy.push(ActionView::StoreMemory { location: m, data: AccessDataView::Literal(w) }), replies);
            &&& o2 is Continue && m2.contains_key(l) && m2.contains_key(m) && m2[l] == v && m2[m] == v
            &&& o3 is Continue && m3[l] == w && m3[m] == v
            &&& o4 is Continue && m4[m] == w && m4[l] == v
        }),
{
    let first = ActionView::StoreMemory { location: l, data: AccessDataView::Literal(v) };
    let copy = seq![first, ActionView::StoreMemory { location: m, data: AccessDataView::Memory(l) }];
    assert(copy.drop_last().drop_last() =~= Seq::<ActionView>::empty());
    assert(copy.drop_last() =~= seq![first]);
    let m1 = mem.insert(l, v);
    assert(run(mem, defs, copy.drop_last().drop_last(), replies.take(2).drop_last().drop_last()) == (mem, Outcome::Continue));
    assert(run(mem, defs, copy.drop_last(), replies.take(2).drop_last()) == (m1, Outcome::Continue));
    assert(run(mem, defs, copy, replies.take(2)) == (m1.insert(m, v), Outcome::Continue));
    let c3 = copy.push(ActionView::StoreMemory { location: l, data: AccessDataView::Literal(w) });
    let c4 = copy.push(ActionView::StoreMemory { location: m, data: AccessDataView::Literal(w) });
    assert(c3.drop_last() =~= copy);
    assert(c4.drop_last() =~= copy);
    assert(replies.drop_last() =~= replies.take(2));
}

/// A call whose result location is empty leaves memory as it was, whatever the
/// function answers.
pub proof fn lemma_discarded_result(mem: Map<Seq<u8>, StoredDataView>, defs: Set<Seq<u8>>, c: CallFunctionView, reply: Reply)
    requires
        c.result_location.len() == 0,
    ensures
        step(mem, defs, ActionView::CallFunction(c), reply).0 == mem,
{
}

/// A call of a name that no function is bound to fails with an invalid location naming
/// it, after any number of actions that succeeded, and leaves memory as they left it.
pub proof fn lemma_unknown_call_target(mem: Map<Seq<u8>, StoredDataView>, defs: Set<Seq<u8>>, actions: Seq<ActionView>, replies: Seq<Reply>, c: CallFunctionView, reply: Reply)
    requires
        !defs.contains(c.location),
        run(mem, defs, actions, replies).1 is Continue,
    ensures
        run(mem, defs, actions.push(ActionView::CallFunction(c)), replies.push(reply)) == (
            run(mem, defs, actions, replies).0,
            Outcome::InvalidLocation(c.location),
        ),
{
    assert(actions.push(ActionView::CallFunction(c)).drop_last() =~= actions);
    assert(replies.push(reply).drop_last() =~= replies);
}

/// The value of an operand: a literal as it stands, a memory reference as a copy of
/// the cell's current value.
pub fn resolve_access(memory: &Table<StoredData>, access: &AccessData) -> (r: Result<StoredData, RuntimeError>)
    requires
        memory.wf(),
    ensures
        match resolve(memory_view(*memory), access@) {
            Some(v) => r matches Ok(d) && d@ == v,
            None => r matches Err(RuntimeError::InvalidLocation(l)) && l@ == access@->Memory_0,
        },
{
    match access {
        AccessData::Literal(literal) => Ok(literal.0.to_stored()),
        AccessData::Memory(m) => match memory.get(m.0.as_slice()) {
            Some(v) => Ok(v.copy()),
            None => Err(RuntimeError::InvalidLocation(copy_bytes(m.0.as_slice()))),
        },
    }
}

/// The values of a call's operands in order, or the first location among them that does
/// not exist.
pub fn resolve_args(memory: &Table<StoredData>, args: &Vec<AccessData>) -> (r: Result<Vec<StoredData>, RuntimeError>)
    requires
        memory.wf(),
    ensures
        match resolve_all(memory_view(*memory), args@.map_values(|a: AccessData| a@)) {
            Ok(vs) => r matches Ok(ds) && ds@.map_values(|d: StoredData| d@) == vs,
            Err(l) => r matches Err(RuntimeError::InvalidLocation(v)) && v@ == l,
        },
{
    let ghost mem = memory_view(*memory);
    let ghost all = args@.map_values(|a: AccessData| a@);
    let mut out: Vec<StoredData> = Vec::new();
    let mut i: usize = 0;
    assert(out@.map_values(|d: StoredData| d@) =~= Seq::<StoredDataView>::empty());
    assert(all.take(0) =~= Seq::<AccessDataView>::empty());
    while i < args.len()
        invariant
            memory.wf(),
            mem == memory_view(*memory),
            all == args@.map_values(|a: AccessData| a@),
            i <= args@.len(),
            resolve_all(mem, all.take(i as int)) == Ok::<Seq<StoredDataView>, Seq<u8>>(out@.map_values(|d: StoredData| d@)),
        decreases args@.len() - i,
    {
        assert(all.take(i + 1).drop_last() =~= all.take(i as int));
        assert(all.take(i + 1).last() == args@[i as int]@);
        let ghost prev = out@;
        match resolve_access(memory, &args[i]) {
            Ok(d) => {
                out.push(d);
                assert(out@.map_values(|d: StoredData| d@) =~= prev.map_values(|d: StoredData| d@).push(d@));
            },
            Err(e) => {
                proof {
                    lemma_resolve_all_err(mem, all, (i + 1) as nat);
                }
                return Err(e);
            },
        }
        i = i + 1;
    }
    assert(all.take(i as int) =~= all);
    Ok(out)
}

proof fn lemma_resolve_all_err(mem: Map<Seq<u8>, StoredDataView>, all: Seq<AccessDataView>, k: nat)
    requires
        k <= all.len(),
        resolve_all(mem, all.take(k as int)) is Err,
    ensures
        resolve_all(mem, all) == resolve_all(mem, all.take(k as int)),
    decreases all.len() - k,
{
    if k < all.len() {
        assert(all.take((k + 1) as int).drop_last() =~= all.take(k as int));
        lemma_resolve_all_err(mem, all, k + 1);
    } else {
        assert(all.take(k as int) =~= all);
    }
}

/// Handles a native function's reply to a call: a value is stored at `result_location`
/// unless that is empty; an error is passed on and memory is left as it is.
pub fn store_result(memory: &mut Table<StoredData>, result_location: &[u8], reply: Result<StoredData, RuntimeError>) -> (r: Result<(), RuntimeError>)
    requires
        old(memory).wf(),
    ensures
        final(memory).wf(),
        match reply {
            Ok(v) => r is Ok && memory_view(*final(memory)) == store_reply(memory_view(*old(memory)), result_location@, v@),
            Err(e) => r == Err::<(), RuntimeError>(e) && *final(memory) == *old(memory),
        },
{
    match reply {
        Ok(v) => {
            if result_location.len() != 0 {
                let ghost vv = v@;
                memory.insert(copy_bytes(result_location), v);
                assert(memory_view(*final(memory)) =~= memory_view(*old(memory)).insert(result_location@, vv));
            }
            Ok(())
        },
        Err(e) => Err(e),
    }
}

/// The execution engine: a decoded program, its memory, and the functions it can call.
/// `F` is the host's function type; a host with several kinds of function makes it an
/// enum over them.
pub struct Runtime<F> {
    actions: Vec<Action>,
    memory: Table<StoredData>,
    definitions: Table<DefinedFunction<F>>,
}

impl<F: NativeFunction> Runtime<F> {
    pub closed spec fn wf(&self) -> bool {
        &&& self.memory.wf()
        &&& self.definitions.wf()
        &&& forall|k: Seq<u8>| #[trigger] self.definitions@.contains_key(k) ==> self.definitions@[k] is Native
    }

    /// The program, in order.
    pub closed spec fn program(&self) -> Seq<ActionView> {
        self.actions@.map_values(|a: Action| a@)
    }

    /// The memory cells and their values.
    pub closed spec fn memory(&self) -> Map<Seq<u8>, StoredDataView> {
        memory_view(self.memory)
    }

    /// The names that are bound to a function.
    pub closed spec fn defined(&self) -> Set<Seq<u8>> {
        self.definitions@.dom()
    }

    /// Decodes `script` into a program, with empty memory and no functions. Fails unless
    /// the whole script decodes into actions.
    pub fn new(script: &[u8]) -> (r: Result<Self, ParseError>)
        ensures
            r is Ok <==> spec_parse_script(script@).0.len() == 0,
            r matches Ok(rt) ==> rt.wf() && rt.program() == spec_parse_script(script@).1
                && rt.memory() == Map::<Seq<u8>, StoredDataView>::empty()
                && rt.defined() == Set::<Seq<u8>>::empty(),
    {
        let (rest, actions) = match parse_script(script) {
            Ok(x) => x,
            Err(e) => {
                return Err(e);
            },
        };
        if rest.len() != 0 {
            return Err(ParseError::Generic(String::from_str("trailing bytes after the last action")));
        }
        let rt = Runtime { actions, memory: Table::new(), definitions: Table::new() };
        assert(rt.memory() =~= Map::<Seq<u8>, StoredDataView>::empty());
        assert(rt.defined() =~= Set::<Seq<u8>>::empty());
        Ok(rt)
    }

    /// Binds `location` to a native function; a later binding of the same name replaces
    /// an earlier one.
    pub fn add_native_function(&mut self, location: MemoryLocation, function: F)
        requires
            old(self).wf(),
        ensures
            final(self).wf(),
            final(self).program() == old(self).program(),
            final(self).memory() == old(self).memory(),
            final(self).defined() == old(self).defined().insert(location@),
    {
        let ghost loc = location@;
        self.definitions.insert(location, DefinedFunction::Native(function));
        assert(self.defined() =~= old(self).defined().insert(loc));
    }

    /// A copy of the value at `location`, if that cell exists.
    pub fn read_memory(&self, location: &[u8]) -> (r: Option<StoredData>)
        requires
            self.wf(),
        ensures
            r is Some <==> self.memory().contains_key(location@),
            r matches Some(v) ==> v@ == self.memory()[location@],
    {
        match self.memory.get(location) {
            Some(v) => Some(v.copy()),
            None => None,
        }
    }

    /// Carries out action `i` and returns what it reported, with the reply of the native
    /// function where one was called.
    fn step_action(&mut self, i: usize) -> (r: (Result<(), RuntimeError>, Ghost<Reply>))
        requires
            old(self).wf(),
            i < old(self).program().len(),
        ensures
            final(self).wf(),
            final(self).actions == old(self).actions,
            final(self).definitions == old(self).definitions,
            ({
                let (m, o) = step(old(self).memory(), old(self).defined(), old(self).program()[i as int], r.1@);
                m == final(self).memory() && reports(r.0, o)
            }),
    {
        let ghost unused: Reply = Err(RuntimeError::NotImplemented);
        let action = &self.actions[i];
        assert(self.program()[i as int] == action@);
        match action {
            Action::StoreMemory(a) => {
                match resolve_access(&self.memory, &a.data) {
                    Ok(v) => {
                        let ghost vv = v@;
                        self.memory.insert(copy_bytes(a.location.as_slice()), v);
                        assert(self.memory() =~= old(self).memory().insert(a.location@, vv));
                        (Ok(()), Ghost(unused))
                    },
                    Err(e) => (Err(e), Ghost(unused)),
                }
            },
            Action::FreeMemory(a) => {
                if self.memory.remove(a.0.as_slice()) {
                    assert(self.memory() =~= old(self).memory().remove(a.0@));
                    (Ok(()), Ghost(unused))
                } else {
                    (Err(RuntimeError::InvalidLocation(copy_bytes(a.0.as_slice()))), Ghost(unused))
                }
            },
            Action::DeclareFunction(_) => (Err(RuntimeError::NotImplemented), Ghost(unused)),
            Action::CallFunction(c) => {
                let function = match self.definitions.get(c.location.as_slice()) {
                    Some(DefinedFunction::Native(f)) => f,
                    Some(DefinedFunction::Bytecode) => {
                        return (Err(RuntimeError::NotImplemented), Ghost(unused));
                    },
                    None => {
                        return (Err(RuntimeError::InvalidLocation(copy_bytes(c.location.as_slice()))), Ghost(unused));
                    },
                };
                let args = match resolve_args(&self.memory, &c.args) {
                    Ok(args) => args,
                    Err(e) => {
                        return (Err(e), Ghost(unused));
                    },
                };
                let reply = function.execute(&args);
                let ghost reply_view = reply_of(reply);
                let r = store_result(&mut self.memory, c.result_location.as_slice(), reply);
                (r, Ghost(reply_view))
            },
        }
    }

    /// Runs the program once, in order, stopping at the first action that fails. The
    /// effects of the actions before a failure stay in memory. Each native function
    /// answers as it will: the result is what some sequence of replies gives.
    pub fn execute(&mut self) -> (r: Result<(), RuntimeError>)
        requires
            old(self).wf(),
        ensures
            final(self).wf(),
            final(self).program() == old(self).program(),
            final(self).defined() == old(self).defined(),
            exists|replies: Seq<Reply>| {
                let (m, o) = #[trigger] run(old(self).memory(), old(self).defined(), old(self).program(), replies);
                &&& replies.len() == old(self).program().len()
                &&& m == final(self).memory()
                &&& reports(r, o)
            },
    {
        let ghost mem0 = self.memory();
        let ghost defs = self.defined();
        let ghost prog = self.program();
        let ghost mut replies: Seq<Reply> = Seq::empty();
        let n = self.actions.len();
        let mut i: usize = 0;
        assert(prog.take(0) =~= Seq::<ActionView>::empty());
        while i < n
            invariant
                self.wf(),
                n == self.actions@.len(),
                prog == self.program(),
                defs == self.defined(),
                i <= n,
                mem0 == old(self).memory(),
                prog == old(self).program(),
                defs == old(self).defined(),
                replies.len() == i,
                run(mem0, defs, prog.take(i as int), replies) == (self.memory(), Outcome::Continue),
            decreases n - i,
        {
            let ghost before = self.memory();
            let (r, reply) = self.step_action(i);
            assert(self.program() == prog);
            assert(prog.take(i + 1).last() == prog[i as int]);
            let ghost old_replies = replies;
            proof {
                replies = replies.push(reply@);
                assert(prog.take(i + 1).drop_last() =~= prog.take(i as int));
                assert(replies.drop_last() =~= old_replies);
                let (m, o) = step(before, defs, prog[i as int], reply@);
                assert(run(mem0, defs, prog.take(i + 1), replies) == (m, o));
            }
            if r.is_err() {
                proof {
                    let (m, o) = step(before, defs, prog[i as int], reply@);
                    assert(!(o is Continue));
                    let more = prog.subrange(i + 1, n as int);
                    lemma_run_halted(mem0, defs, prog.take(i + 1), replies, more);
                    assert(prog.take(i + 1) + more =~= prog);
                    let all = replies + unused_replies(more.len());
                    assert(run(mem0, defs, prog, all) == (m, o));
                    assert(all.len() == prog.len());
                }
                return r;
            }
            i = i + 1;
        }
        assert(prog.take(n as int) =~= prog);
        Ok(())
    }
}

} // verus!
