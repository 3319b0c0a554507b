//! The heights of the stack along the code that the compiler emits, and
//! how stretches of code for which heights are known make longer ones.

use vstd::prelude::*;
use crate::code::Instruction;
use crate::compile::symbol_table::{
    defined, depth, passes_unchanged, resolved, store_lookup, Symbol, SymbolTableView,
};
use crate::compile::{
    constant_added, constant_emitted, current, emitted, function_entered, load, loads_emitted,
    parameters_defined, patched, scope_entered, scope_left, with_current, with_trailing_return,
    without_trailing_pop, CompilerView,
};
use crate::object::{CompiledFunctionView, Value};
use crate::vm::discipline::{
    all_disciplined, delta, disciplined, flows, function_typed, is_function_code,
};

verus! {

/// Whether a table is as the compiler keeps it: no scope captures a symbol
/// that passes unchanged, and the outermost scope binds globals and
/// built-in functions only.
pub open spec fn kept(table: SymbolTableView) -> bool
    decreases table,
{
    &&& forall|i: int|
        0 <= i < table.free_symbols.len() ==> !passes_unchanged(#[trigger] table.free_symbols[i])
    &&& match table.outer {
        Some(outer) => kept(*outer),
        None => forall|i: int|
            0 <= i < table.store.len() ==> {
                let scope = (#[trigger] table.store[i]).1.scope;
                scope is Global || scope is Builtin
            },
    }
}

/// What a lookup finds is among the bindings.
proof fn lemma_lookup(store: Seq<(Seq<char>, Symbol)>, name: Seq<char>, upto: int)
    ensures
        store_lookup(store, name, upto) matches Some(symbol) ==> exists|i: int|
            0 <= i < store.len() && (#[trigger] store[i]).1 == symbol,
    decreases upto,
{
    if upto <= 0 || upto > store.len() {
    } else if store[upto - 1].0 == name {
        assert(store[upto - 1].1 == store_lookup(store, name, upto)->Some_0);
    } else {
        lemma_lookup(store, name, upto - 1);
    }
}

/// Resolving a name keeps a table as the compiler keeps it, leaves the
/// outermost scope as it was, and finds there globals and built-in
/// functions only.
pub proof fn lemma_resolved(table: SymbolTableView, name: Seq<char>)
    requires
        kept(table),
    ensures
        kept(resolved(table, name).0),
        depth(resolved(table, name).0) == depth(table),
        table.outer is None ==> resolved(table, name).0 == table && (resolved(
            table,
            name,
        ).1 matches Some(symbol) ==> symbol.scope is Global || symbol.scope is Builtin),
    decreases table,
{
    lemma_lookup(table.store, name, table.store.len() as int);
    match store_lookup(table.store, name, table.store.len() as int) {
        Some(symbol) => {},
        None => match table.outer {
            None => {},
            Some(outer) => {
                lemma_resolved(*outer, name);
                let (around, found) = resolved(*outer, name);
                let here = SymbolTableView { outer: Some(Box::new(around)), ..table };
                assert(kept(here));
                match found {
                    None => {},
                    Some(symbol) => {
                        if !passes_unchanged(symbol) {
                            let captured = resolved(table, name).0;
                            assert(captured.free_symbols == table.free_symbols.push(symbol));
                            assert(captured.outer == here.outer);
                            assert forall|i: int|
                                0 <= i < captured.free_symbols.len() implies !passes_unchanged(
                                #[trigger] captured.free_symbols[i],
                            ) by {
                                if i < table.free_symbols.len() {
                                    assert(captured.free_symbols[i] == table.free_symbols[i]);
                                }
                            }
                        }
                    },
                }
            },
        },
    }
}

/// A definition keeps a table as the compiler keeps it.
pub proof fn lemma_defined(table: SymbolTableView, name: Seq<char>)
    requires
        kept(table),
    ensures
        kept(defined(table, name).0),
        depth(defined(table, name).0) == depth(table),
        table.outer is None ==> defined(table, name).1.scope is Global,
        table.outer is Some ==> defined(table, name).1.scope is Local,
{
    let after = defined(table, name).0;
    assert(after.free_symbols == table.free_symbols);
    assert(after.outer == table.outer);
    if table.outer is None {
        assert forall|i: int| 0 <= i < after.store.len() implies {
            let scope = (#[trigger] after.store[i]).1.scope;
            scope is Global || scope is Builtin
        } by {
            if i < table.store.len() {
                assert(after.store[i] == table.store[i]);
            }
        }
    }
}

/// The parameters of a function are defined in a table that is kept.
pub proof fn lemma_parameters(c: CompilerView, parameters: Seq<Seq<char>>, from: int)
    requires
        kept(c.symbols),
        c.symbols.outer is Some,
    ensures
        kept(parameters_defined(c, parameters, from).symbols),
        depth(parameters_defined(c, parameters, from).symbols) == depth(c.symbols),
        parameters_defined(c, parameters, from).scopes == c.scopes,
        parameters_defined(c, parameters, from).constants == c.constants,
    decreases parameters.len() - from,
{
    if from < 0 || from >= parameters.len() {
    } else {
        lemma_defined(c.symbols, parameters[from]);
        lemma_parameters(
            CompilerView { symbols: defined(c.symbols, parameters[from]).0, ..c },
            parameters,
            from + 1,
        );
    }
}

/// A function is entered with a table that is kept.
pub proof fn lemma_entered(c: CompilerView, name: Option<Seq<char>>)
    requires
        kept(c.symbols),
    ensures
        kept(function_entered(c, name).symbols),
        depth(function_entered(c, name).symbols) == depth(c.symbols) + 1,
        function_entered(c, name).symbols.outer == Some(Box::new(c.symbols)),
        function_entered(c, name).symbols.free_symbols.len() == 0,
        function_entered(c, name).scopes == c.scopes.push(Seq::empty()),
        function_entered(c, name).constants == c.constants,
{
    let inside = scope_entered(c);
    assert(kept(inside.symbols));
}

/// Whether an instruction may stand in a stretch of code: a jump leads no
/// further than `limit`, and at the top level nothing refers to a running
/// closure.
pub open spec fn lands(instruction: Instruction, limit: int, top: bool) -> bool {
    match instruction {
        Instruction::Jump(target) => target <= limit,
        Instruction::JumpNotTruthy(target) => target <= limit,
        Instruction::CurrentClosure => !top,
        _ => true,
    }
}

/// Whether the heights `h` fit the instruction at `i`, which may stand
/// there.
pub open spec fn placed(code: Seq<Instruction>, h: Seq<int>, i: int, limit: int, top: bool)
    -> bool {
    flows(code, h, i) && lands(code[i], limit, top)
}

/// Whether the heights `h` fit the instructions of `code` from `from` up to
/// `to`, and each of these instructions may stand there.
pub open spec fn fitting(
    code: Seq<Instruction>,
    h: Seq<int>,
    from: int,
    to: int,
    limit: int,
    top: bool,
) -> bool {
    &&& 0 <= from <= to <= code.len()
    &&& h.len() == code.len() + 1
    &&& forall|i: int| from <= i < to ==> #[trigger] placed(code, h, i, limit, top)
}

/// Whether a compiler is in order: it is inside a function or at the top
/// level, its constants are disciplined, and its table is kept.
pub open spec fn sane(c: CompilerView) -> bool {
    &&& c.scopes.len() >= 1
    &&& all_disciplined(c.constants)
    &&& kept(c.symbols)
}

/// Whether `h` gives the code of a compiler that is in order its heights.
#[verifier::opaque]
pub open spec fn ready(c: CompilerView, h: Seq<int>) -> bool {
    sane(c) && h.len() == current(c).len() + 1
}

/// What a compiler that is ready is.
pub proof fn lemma_ready(c: CompilerView, h: Seq<int>)
    ensures
        ready(c, h) == (sane(c) && h.len() == current(c).len() + 1),
{
    reveal(ready);
}

/// Whether the code that `d` has and `c` has not is a stretch of code for
/// which the heights `g` fit: it follows the code of `c`, which is left as
/// it was, as are the heights `h` of that code; it raises the stack by
/// `rise`; and its jumps lead no further than `slack` before its end.
#[verifier::opaque]
pub open spec fn stretch(
    c: CompilerView,
    h: Seq<int>,
    d: CompilerView,
    g: Seq<int>,
    rise: int,
    slack: int,
) -> bool {
    let from = current(c).len() as int;
    let to = current(d).len() as int;
    &&& h.len() == from + 1
    &&& d.scopes.len() == c.scopes.len()
    &&& forall|k: int| 0 <= k < c.scopes.len() - 1 ==> #[trigger] d.scopes[k] == c.scopes[k]
    &&& forall|j: int| 0 <= j < from ==> #[trigger] current(d)[j] == current(c)[j]
    &&& forall|j: int| 0 <= j <= from ==> #[trigger] g[j] == h[j]
    &&& fitting(current(d), g, from, to, to - slack, depth(c.symbols) == 0)
    &&& g[to] == h[from] + rise
}

/// Whether the compiler has got from `c`, with the heights `h` for its
/// code, to `d`, with the heights `g`, by adding a stretch of code.
pub open spec fn grown(
    c: CompilerView,
    h: Seq<int>,
    d: CompilerView,
    g: Seq<int>,
    rise: int,
    slack: int,
) -> bool {
    &&& ready(d, g)
    &&& current(c).len() <= current(d).len()
    &&& depth(d.symbols) == depth(c.symbols)
    &&& stretch(c, h, d, g, rise, slack)
}

/// One stretch of code after another is a stretch of code.
pub proof fn lemma_then(
    c: CompilerView,
    h: Seq<int>,
    d: CompilerView,
    g: Seq<int>,
    e: CompilerView,
    k: Seq<int>,
    first: (int, int),
    second: (int, int),
)
    requires
        grown(c, h, d, g, first.0, first.1),
        grown(d, g, e, k, second.0, second.1),
        0 <= first.1,
        current(d).len() - first.1 <= current(e).len() - second.1,
    ensures
        grown(c, h, e, k, first.0 + second.0, second.1),
        second.1 >= 0 ==> grown(c, h, e, k, first.0 + second.0, 0),
{
    reveal(ready);
    reveal(stretch);
    let from = current(c).len() as int;
    let mid = current(d).len() as int;
    let to = current(e).len() as int;
    let top = depth(c.symbols) == 0;
    assert forall|i: int| from <= i < to implies #[trigger] placed(
        current(e),
        k,
        i,
        to - second.1,
        top,
    ) by {
        if i < mid {
            assert(placed(current(d), g, i, mid - first.1, top));
            assert(current(e)[i] == current(d)[i]);
            assert(k[i] == g[i]);
            assert(k[i + 1] == g[i + 1]);
            match current(d)[i] {
                Instruction::Jump(target) => {
                    assert(k[target as int] == g[target as int]);
                },
                Instruction::JumpNotTruthy(target) => {
                    assert(k[target as int] == g[target as int]);
                },
                _ => {},
            }
        } else {
            assert(placed(current(e), k, i, to - second.1, top));
        }
    }
    assert forall|j: int| 0 <= j < from implies #[trigger] current(e)[j] == current(c)[j] by {
        assert(current(e)[j] == current(d)[j]);
    }
    assert forall|j: int| 0 <= j <= from implies #[trigger] k[j] == h[j] by {
        assert(k[j] == g[j]);
    }
    assert forall|n: int| 0 <= n < c.scopes.len() - 1 implies #[trigger] e.scopes[n]
        == c.scopes[n] by {
        assert(e.scopes[n] == d.scopes[n]);
    }
    assert(k[mid] == g[mid]);
    if second.1 >= 0 {
        assert forall|i: int| from <= i < to implies #[trigger] placed(current(e), k, i, to, top) by {
            assert(placed(current(e), k, i, to - second.1, top));
        }
    }
}

/// A compiler that has not moved has grown by nothing.
pub proof fn lemma_still(c: CompilerView, h: Seq<int>)
    requires
        ready(c, h),
    ensures
        grown(c, h, c, h, 0, 0),
        grown(c, h, c, h, 0, 1),
{
    reveal(ready);
    reveal(stretch);
}

/// One more instruction that is no jump is a stretch of code. What the
/// height behind a `ReturnValue` is stands open.
pub proof fn lemma_emit(c: CompilerView, h: Seq<int>, instruction: Instruction, rise: int) -> (g:
    Seq<int>)
    requires
        ready(c, h),
        !(instruction is Jump),
        !(instruction is JumpNotTruthy),
        instruction is CurrentClosure ==> depth(c.symbols) > 0,
        instruction is ReturnValue || rise == delta(instruction),
    ensures
        grown(c, h, emitted(c, instruction), g, rise, 1),
        grown(c, h, emitted(c, instruction), g, rise, 0),
        current(emitted(c, instruction)) == current(c).push(instruction),
        emitted(c, instruction).symbols == c.symbols,
        emitted(c, instruction).constants == c.constants,
        g == h.push(h.last() + rise),
{
    reveal(ready);
    reveal(stretch);
    let d = emitted(c, instruction);
    let g = h.push(h.last() + rise);
    let from = current(c).len() as int;
    assert(current(d) == current(c).push(instruction));
    let top = depth(c.symbols) == 0;
    assert forall|i: int| from <= i < from + 1 implies #[trigger] placed(
        current(d),
        g,
        i,
        from,
        top,
    ) by {
        assert(current(d)[i] == instruction);
        assert(g[i] == h[i]);
        assert(g[i + 1] == h.last() + rise);
    }
    assert forall|i: int| from <= i < from + 1 implies #[trigger] placed(
        current(d),
        g,
        i,
        from + 1,
        top,
    ) by {
        assert(placed(current(d), g, i, from, top));
    }
    g
}

/// A constant and the instruction that pushes it are a stretch of code.
pub proof fn lemma_constant(c: CompilerView, h: Seq<int>, constant: Value) -> (g: Seq<int>)
    requires
        ready(c, h),
        disciplined(constant),
    ensures
        grown(c, h, constant_emitted(c, constant), g, 1, 0),
        current(constant_emitted(c, constant)).len() == current(c).len() + 1,
{
    reveal(stretch);
    reveal(ready);
    let added = constant_added(c, constant);
    assert forall|i: int| 0 <= i < added.constants.len() implies disciplined(
        #[trigger] added.constants[i],
    ) by {
        if i < c.constants.len() {
            assert(added.constants[i] == c.constants[i]);
        }
    }
    assert(current(added) == current(c));
    let instruction = Instruction::Constant((c.constants.len() as usize) as i16);
    let g = lemma_emit(added, h, instruction, 1);
    g
}

/// The instructions that push captured values are a stretch of code.
pub proof fn lemma_loads(c: CompilerView, h: Seq<int>, symbols: Seq<Symbol>, from: int) -> (g:
    Seq<int>)
    requires
        ready(c, h),
        0 <= from <= symbols.len(),
        forall|i: int| 0 <= i < symbols.len() ==> !passes_unchanged(#[trigger] symbols[i]),
    ensures
        grown(c, h, loads_emitted(c, symbols, from), g, symbols.len() - from, 0),
        loads_emitted(c, symbols, from).constants == c.constants,
    decreases symbols.len() - from,
{
    reveal(ready);
    if from >= symbols.len() {
        lemma_still(c, h);
        h
    } else {
        assert(!passes_unchanged(symbols[from]));
        let one = lemma_emit(c, h, load(symbols[from]), 1);
        let d = emitted(c, load(symbols[from]));
        let g = lemma_loads(d, one, symbols, from + 1);
        lemma_then(
            c,
            h,
            d,
            one,
            loads_emitted(d, symbols, from + 1),
            g,
            (1, 1),
            (symbols.len() - from - 1, 0),
        );
        g
    }
}

/// Other instructions for the innermost function leave the rest as it is.
pub proof fn lemma_with_current(c: CompilerView, code: Seq<Instruction>)
    requires
        c.scopes.len() >= 1,
    ensures
        current(with_current(c, code)) == code,
        with_current(c, code).scopes.len() == c.scopes.len(),
        forall|k: int|
            0 <= k < c.scopes.len() - 1 ==> #[trigger] with_current(c, code).scopes[k]
                == c.scopes[k],
        with_current(c, code).symbols == c.symbols,
        with_current(c, code).constants == c.constants,
{
}

/// Another table of the same depth leaves the code as it is.
pub proof fn lemma_table(c: CompilerView, h: Seq<int>, symbols: SymbolTableView)
    requires
        ready(c, h),
        kept(symbols),
        depth(symbols) == depth(c.symbols),
    ensures
        grown(c, h, CompilerView { symbols, ..c }, h, 0, 0),
        current(CompilerView { symbols, ..c }) == current(c),
{
    reveal(ready);
    reveal(stretch);
}

/// A block whose value is made use of: the code of a block that leaves the
/// stack as high as it was and ends in `Pop` or `ReturnValue` raises the
/// stack by one when the `Pop` is taken away.
pub proof fn lemma_stripped(c: CompilerView, h: Seq<int>, d: CompilerView, raw: Seq<int>) -> (g:
    Seq<int>)
    requires
        grown(c, h, d, raw, 0, 1),
        current(d).len() >= current(c).len() + 2,
        current(d).last() == Instruction::Pop || current(d).last() is ReturnValue,
    ensures
        grown(c, h, without_trailing_pop(d), g, 1, 0),
        current(without_trailing_pop(d)).len() > current(c).len(),
{
    reveal(ready);
    reveal(stretch);
    let e = without_trailing_pop(d);
    let code = current(d);
    let from = current(c).len() as int;
    let to = code.len() as int;
    let top = depth(c.symbols) == 0;
    assert(placed(code, raw, to - 1, to - 1, top));
    if code.last() == Instruction::Pop {
        lemma_with_current(d, code.drop_last());
        let g = raw.drop_last();
        assert forall|i: int| from <= i < to - 1 implies #[trigger] placed(
            current(e),
            g,
            i,
            to - 1,
            top,
        ) by {
            assert(placed(code, raw, i, to - 1, top));
        }
        assert forall|k: int| 0 <= k < c.scopes.len() - 1 implies #[trigger] e.scopes[k]
            == c.scopes[k] by {
            assert(d.scopes[k] == c.scopes[k]);
        }
        assert forall|j: int| 0 <= j < from implies #[trigger] current(e)[j] == current(c)[j] by {
            assert(current(d)[j] == current(c)[j]);
        }
        assert forall|j: int| 0 <= j <= from implies #[trigger] g[j] == h[j] by {
            assert(raw[j] == h[j]);
        }
        g
    } else {
        let g = raw.update(to, h[from] + 1);
        assert forall|i: int| from <= i < to implies #[trigger] placed(code, g, i, to, top) by {
            assert(placed(code, raw, i, to - 1, top));
        }
        assert forall|j: int| 0 <= j <= from implies #[trigger] g[j] == h[j] by {
            assert(raw[j] == h[j]);
        }
        g
    }
}

/// The body of a function: the code of a block that begins a function,
/// leaves the stack as high as it was and ends in `Pop` or `ReturnValue`
/// is the code of a function that keeps the discipline when a `ReturnValue`
/// stands for the `Pop`.
pub proof fn lemma_returning(c: CompilerView, b: CompilerView, raw: Seq<int>)
    requires
        grown(c, seq![0int], b, raw, 0, 1),
        current(c).len() == 0,
        depth(c.symbols) > 0,
        current(b).len() >= 2,
        current(b).last() == Instruction::Pop || current(b).last() is ReturnValue,
    ensures
        ({
            let d = with_trailing_return(b);
            &&& sane(d)
            &&& d.scopes.len() == c.scopes.len()
            &&& forall|k: int| 0 <= k < c.scopes.len() - 1 ==> #[trigger] d.scopes[k] == c.scopes[k]
            &&& depth(d.symbols) == depth(c.symbols)
            &&& d.constants == b.constants
            &&& is_function_code(current(d))
        }),
{
    reveal(ready);
    reveal(stretch);
    let h = seq![0int];
    let d = with_trailing_return(b);
    let code = current(b);
    let to = code.len() as int;
    if code.last() == Instruction::Pop {
        lemma_with_current(b, code.update(to - 1, Instruction::ReturnValue));
    }
    assert forall|k: int| 0 <= k < c.scopes.len() - 1 implies #[trigger] d.scopes[k]
        == c.scopes[k] by {
        assert(b.scopes[k] == c.scopes[k]);
    }
    assert forall|i: int| 0 <= i < to implies flows(current(d), raw, i) && (
    #[trigger] current(d)[i] matches Instruction::Jump(target) ==> target < to) && (
    current(d)[i] matches Instruction::JumpNotTruthy(target) ==> target < to) by {
        assert(placed(code, raw, i, to - 1, false));
    }
    assert(raw[0] == h[0]);
    assert(function_typed(current(d), raw));
}

/// The jump over the consequence of a conditional is taken with the value
/// of the condition popped, and so is the step into the consequence.
pub proof fn lemma_skip(c: CompilerView, h: Seq<int>, base: int)
    requires
        ready(c, h),
    ensures
        ready(emitted(c, Instruction::JumpNotTruthy(0)), h.push(base)),
        current(emitted(c, Instruction::JumpNotTruthy(0))).len() == current(c).len() + 1,
        depth(emitted(c, Instruction::JumpNotTruthy(0)).symbols) == depth(c.symbols),
{
    reveal(ready);
    lemma_with_current(c, current(c).push(Instruction::JumpNotTruthy(0)));
}

/// The compiler where the alternative of a conditional begins: behind the
/// jump over the alternative, with the jump over the consequence led there.
pub open spec fn between(c: CompilerView, skip: int) -> CompilerView {
    let jumping = emitted(c, Instruction::Jump(0));
    patched(jumping, skip, Instruction::JumpNotTruthy((current(jumping).len() as usize) as u16))
}

/// The alternative of a conditional begins with the stack as high as the
/// jump over the consequence leaves it.
pub proof fn lemma_between(c: CompilerView, h: Seq<int>, skip: int, base: int)
    requires
        ready(c, h),
        0 <= skip < current(c).len(),
    ensures
        ready(between(c, skip), h.push(base)),
        current(between(c, skip)).len() == current(c).len() + 1,
        depth(between(c, skip).symbols) == depth(c.symbols),
{
    reveal(ready);
    let jumping = emitted(c, Instruction::Jump(0));
    lemma_with_current(c, current(c).push(Instruction::Jump(0)));
    lemma_with_current(
        jumping,
        current(jumping).update(
            skip,
            Instruction::JumpNotTruthy((current(jumping).len() as usize) as u16),
        ),
    );
}

/// A conditional: the condition, the jump over the consequence, the
/// consequence, the jump over the alternative and the alternative are a
/// stretch of code that raises the stack by one.
#[verifier::rlimit(100)]
#[verifier::spinoff_prover]
pub proof fn lemma_branches(
    c: CompilerView,
    h: Seq<int>,
    tested: (CompilerView, Seq<int>),
    first: (CompilerView, Seq<int>),
    second: (CompilerView, Seq<int>),
)
    requires
        grown(c, h, tested.0, tested.1, 1, 0),
        grown(
            emitted(tested.0, Instruction::JumpNotTruthy(0)),
            tested.1.push(h[current(c).len() as int]),
            first.0,
            first.1,
            1,
            0,
        ),
        current(first.0).len() + 1 <= 0xffff,
        grown(
            between(first.0, current(tested.0).len() as int),
            first.1.push(h[current(c).len() as int]),
            second.0,
            second.1,
            1,
            0,
        ),
        current(second.0).len() <= 0xffff,
    ensures
        grown(
            c,
            h,
            patched(
                second.0,
                current(first.0).len() as int,
                Instruction::Jump((current(second.0).len() as usize) as u16),
            ),
            second.1,
            1,
            0,
        ),
        current(second.0).len() > current(c).len(),
{
    reveal(ready);
    reveal(stretch);
    let (asked, asked_h) = tested;
    let (taken, taken_h) = first;
    let (ended, ended_h) = second;
    let from = current(c).len() as int;
    let top = depth(c.symbols) == 0;
    let skip = current(asked).len() as int;
    let skipping = emitted(asked, Instruction::JumpNotTruthy(0));
    lemma_with_current(asked, current(asked).push(Instruction::JumpNotTruthy(0)));
    let skipping_h = asked_h.push(h[from]);
    let jump = current(taken).len() as int;
    let jumping = emitted(taken, Instruction::Jump(0));
    lemma_with_current(taken, current(taken).push(Instruction::Jump(0)));
    let begin = jump + 1;
    let other_h = taken_h.push(h[from]);
    let other = between(taken, skip);
    lemma_with_current(jumping, current(jumping).update(skip, Instruction::JumpNotTruthy((begin as usize) as u16)));
    let end = current(ended).len() as int;
    let whole = patched(ended, jump, Instruction::Jump((end as usize) as u16));
    lemma_with_current(ended, current(ended).update(jump, Instruction::Jump((end as usize) as u16)));
    let code = current(whole);
    assert forall|j: int| 0 <= j <= skip implies #[trigger] ended_h[j] == asked_h[j] by {
        assert(ended_h[j] == other_h[j]);
        assert(other_h[j] == taken_h[j]);
        assert(taken_h[j] == skipping_h[j]);
    }
    assert forall|j: int| skip < j <= jump implies #[trigger] ended_h[j] == taken_h[j] by {
        assert(ended_h[j] == other_h[j]);
    }
    assert(ended_h[skip + 1] == h[from]) by {
        assert(taken_h[skip + 1] == skipping_h[skip + 1]);
    }
    assert(ended_h[begin] == h[from]) by {
        assert(ended_h[begin] == other_h[begin]);
    }
    assert(asked_h[skip] == h[from] + 1);
    assert(taken_h[jump] == h[from] + 1);
    assert(ended_h[end] == h[from] + 1);
    assert forall|j: int| 0 <= j < skip implies #[trigger] code[j] == current(asked)[j] by {
        assert(current(ended)[j] == current(other)[j]);
        assert(current(taken)[j] == current(skipping)[j]);
    }
    assert forall|j: int| skip < j < jump implies #[trigger] code[j] == current(taken)[j] by {
        assert(current(ended)[j] == current(other)[j]);
    }
    assert(code[skip] == Instruction::JumpNotTruthy((begin as usize) as u16)) by {
        assert(current(ended)[skip] == current(other)[skip]);
    }
    assert forall|i: int| from <= i < end implies #[trigger] placed(code, ended_h, i, end, top) by {
        if i < skip {
            assert(placed(current(asked), asked_h, i, skip, top));
            assert(code[i] == current(asked)[i]);
            assert(ended_h[i] == asked_h[i]);
            assert(ended_h[i + 1] == asked_h[i + 1]);
            match code[i] {
                Instruction::Jump(target) => {
                    assert(ended_h[target as int] == asked_h[target as int]);
                },
                Instruction::JumpNotTruthy(target) => {
                    assert(ended_h[target as int] == asked_h[target as int]);
                },
                _ => {},
            }
        } else if i == skip {
            assert(ended_h[skip] == asked_h[skip]);
        } else if i < jump {
            assert(placed(current(taken), taken_h, i, jump, top));
            assert(code[i] == current(taken)[i]);
            assert(ended_h[i] == taken_h[i]);
            assert(ended_h[i + 1] == taken_h[i + 1]);
            match code[i] {
                Instruction::Jump(target) => {
                    if target <= skip {
                        assert(ended_h[target as int] == asked_h[target as int]);
                        assert(taken_h[target as int] == skipping_h[target as int]);
                    } else {
                        assert(ended_h[target as int] == taken_h[target as int]);
                    }
                },
                Instruction::JumpNotTruthy(target) => {
                    if target <= skip {
                        assert(ended_h[target as int] == asked_h[target as int]);
                        assert(taken_h[target as int] == skipping_h[target as int]);
                    } else {
                        assert(ended_h[target as int] == taken_h[target as int]);
                    }
                },
                _ => {},
            }
        } else if i == jump {
            assert(ended_h[jump] == taken_h[jump]);
        } else {
            assert(placed(current(ended), ended_h, i, end, top));
        }
    }
    assert forall|j: int| 0 <= j < from implies #[trigger] code[j] == current(c)[j] by {
        assert(code[j] == current(asked)[j]);
        assert(current(asked)[j] == current(c)[j]);
    }
    assert forall|j: int| 0 <= j <= from implies #[trigger] ended_h[j] == h[j] by {
        assert(ended_h[j] == asked_h[j]);
        assert(asked_h[j] == h[j]);
    }
    assert forall|k: int| 0 <= k < c.scopes.len() - 1 implies #[trigger] whole.scopes[k]
        == c.scopes[k] by {
        assert(ended.scopes[k] == other.scopes[k]);
        assert(taken.scopes[k] == skipping.scopes[k]);
        assert(asked.scopes[k] == c.scopes[k]);
    }
}

/// The compiler at the beginning of the body of a function.
pub open spec fn inside(c: CompilerView, name: Option<Seq<char>>, parameters: Seq<Seq<char>>)
    -> CompilerView {
    parameters_defined(function_entered(c, name), parameters, 0)
}

/// The body of a function begins without code, in a scope of its own.
pub proof fn lemma_inside(
    c: CompilerView,
    h: Seq<int>,
    name: Option<Seq<char>>,
    parameters: Seq<Seq<char>>,
)
    requires
        ready(c, h),
    ensures
        ready(inside(c, name, parameters), seq![0int]),
        current(inside(c, name, parameters)).len() == 0,
        depth(inside(c, name, parameters).symbols) == depth(c.symbols) + 1,
        inside(c, name, parameters).scopes == c.scopes.push(Seq::empty()),
{
    reveal(ready);
    lemma_entered(c, name);
    lemma_parameters(function_entered(c, name), parameters, 0);
    assert(current(inside(c, name, parameters)) =~= Seq::<Instruction>::empty());
}

/// The compiler behind a function literal whose body has left it as
/// `returning`: back in the scope around, with the function as a constant,
/// behind the instructions that push the captured values and the `Closure`
/// that bundles them with the function.
pub open spec fn closure_made(returning: CompilerView, parameters: nat) -> CompilerView {
    let (outside, instructions, free) = scope_left(returning);
    let loaded = loads_emitted(outside, free, 0);
    let function = Value::CompiledFunction(
        CompiledFunctionView {
            instructions,
            num_locals: returning.symbols.num_definitions as nat,
            num_arguments: parameters,
        },
    );
    emitted(
        constant_added(loaded, function),
        Instruction::Closure {
            constant_index: (loaded.constants.len() as usize) as u16,
            free_variables: (free.len() as usize) as u8,
        },
    )
}

/// A function literal: the instructions that push the captured values and
/// the `Closure` that bundles them are a stretch of code that raises the
/// stack by one, and the function is a disciplined constant.
pub proof fn lemma_closure(
    c: CompilerView,
    h: Seq<int>,
    returning: CompilerView,
    parameters: nat,
) -> (g: Seq<int>)
    requires
        ready(c, h),
        sane(returning),
        returning.scopes.len() == c.scopes.len() + 1,
        forall|k: int| 0 <= k < c.scopes.len() ==> #[trigger] returning.scopes[k] == c.scopes[k],
        depth(returning.symbols) == depth(c.symbols) + 1,
        is_function_code(current(returning)),
        scope_left(returning).2.len() <= 0xff,
    ensures
        grown(c, h, closure_made(returning, parameters), g, 1, 0),
        current(closure_made(returning, parameters)).len() > current(c).len(),
{
    reveal(ready);
    reveal(stretch);
    let (outside, instructions, free) = scope_left(returning);
    assert(outside.scopes =~= c.scopes);
    assert(kept(outside.symbols));
    assert(current(outside) == current(c));
    assert(grown(c, h, outside, h, 0, 0));
    let one = lemma_loads(outside, h, free, 0);
    let loaded = loads_emitted(outside, free, 0);
    let function = Value::CompiledFunction(
        CompiledFunctionView {
            instructions,
            num_locals: returning.symbols.num_definitions as nat,
            num_arguments: parameters,
        },
    );
    let added = constant_added(loaded, function);
    assert forall|i: int| 0 <= i < added.constants.len() implies disciplined(
        #[trigger] added.constants[i],
    ) by {
        if i < loaded.constants.len() {
            assert(added.constants[i] == loaded.constants[i]);
        }
    }
    assert(current(added) == current(loaded));
    assert(grown(outside, h, added, one, free.len() as int, 0));
    let instruction = Instruction::Closure {
        constant_index: (loaded.constants.len() as usize) as u16,
        free_variables: (free.len() as usize) as u8,
    };
    let g = lemma_emit(added, one, instruction, 1 - free.len());
    lemma_then(c, h, outside, h, added, one, (0, 0), (free.len() as int, 0));
    lemma_then(
        c,
        h,
        added,
        one,
        emitted(added, instruction),
        g,
        (free.len() as int, 0),
        (1 - free.len(), 1),
    );
    g
}

/// Twice a small number is not cut.
pub proof fn lemma_twice(n: nat)
    requires
        2 * n <= 0xffff,
    ensures
        (n as usize).wrapping_mul(2) as u16 == 2 * n,
{
    let x = n as usize;
    assert(x == n);
    vstd::arithmetic::div_mod::lemma_small_mod((2 * n) as nat, (usize::MAX + 1) as nat);
}

} // verus!
