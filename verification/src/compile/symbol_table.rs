//! The symbol table: which name means which storage slot, scope by scope.

use vstd::prelude::*;
use vstd::string::*;
use crate::text::str_eq;

verus! {

/// Where the value of a name lives.
#[derive(Debug, Clone, Copy, PartialEq, Eq, Structural)]
pub enum SymbolScope {
    /// In the table of globals.
    Global,
    /// In the frame of the running function.
    Local,
    /// Among the values that the running closure captured.
    Free,
    /// Among the built-in functions.
    Builtin,
    /// The running closure itself.
    Function,
}

/// The meaning of a name: a scope and an index within it.
#[derive(Debug, Clone, Copy, PartialEq, Eq, Structural)]
pub struct Symbol {
    pub scope: SymbolScope,
    pub index: u16,
}

/// The names of one scope, with the table of the scope around it.
#[derive(Debug)]
pub struct SymbolTable {
    outer: Option<Box<SymbolTable>>,
    store: Vec<(String, Symbol)>,
    /// The symbols of enclosing scopes that this scope captures, in the order
    /// of their first use.
    pub free_symbols: Vec<Symbol>,
    num_definitions: u16,
}

/// The mathematical value of a [`SymbolTable`]. `store` holds the bindings
/// in the order in which they were made; the last binding of a name counts.
pub struct SymbolTableView {
    pub outer: Option<Box<SymbolTableView>>,
    pub store: Seq<(Seq<char>, Symbol)>,
    pub free_symbols: Seq<Symbol>,
    pub num_definitions: u16,
}

/// The last binding of `name` among the first `upto` bindings.
pub open spec fn store_lookup(store: Seq<(Seq<char>, Symbol)>, name: Seq<char>, upto: int)
    -> Option<Symbol>
    decreases upto,
{
    if upto <= 0 || upto > store.len() {
        None
    } else if store[upto - 1].0 == name {
        Some(store[upto - 1].1)
    } else {
        store_lookup(store, name, upto - 1)
    }
}

/// The table of the outermost scope, without a name.
pub open spec fn empty_table() -> SymbolTableView {
    SymbolTableView {
        outer: None,
        store: Seq::empty(),
        free_symbols: Seq::empty(),
        num_definitions: 0,
    }
}

/// The table of a new scope inside the scope of `table`.
pub open spec fn enclosed(table: SymbolTableView) -> SymbolTableView {
    SymbolTableView {
        outer: Some(Box::new(table)),
        store: Seq::empty(),
        free_symbols: Seq::empty(),
        num_definitions: 0,
    }
}

/// The table of the scope around that of `table`, and the symbols that the
/// scope of `table` captured. The outermost scope is never left.
pub open spec fn left(table: SymbolTableView) -> (SymbolTableView, Seq<Symbol>) {
    match table.outer {
        Some(outer) => (*outer, table.free_symbols),
        None => (table, Seq::empty()),
    }
}

/// How many scopes lie around the scope of `table`.
pub open spec fn depth(table: SymbolTableView) -> nat
    decreases table,
{
    match table.outer {
        Some(outer) => depth(*outer) + 1,
        None => 0,
    }
}

/// The table of the outermost scope around the scope of `table`, as it is
/// when every scope inside it has been left.
pub open spec fn outermost(table: SymbolTableView) -> SymbolTableView
    decreases table,
{
    match table.outer {
        Some(outer) => outermost(*outer),
        None => table,
    }
}

/// The outermost scope has no scope around it.
pub proof fn lemma_outermost(table: SymbolTableView)
    ensures
        outermost(table).outer is None,
        table.outer is None ==> outermost(table) == table,
    decreases table,
{
    match table.outer {
        Some(outer) => {
            lemma_outermost(*outer);
        },
        None => {},
    }
}

/// `table` with one more binding.
pub open spec fn bound(table: SymbolTableView, name: Seq<char>, symbol: Symbol)
    -> SymbolTableView {
    SymbolTableView { store: table.store.push((name, symbol)), ..table }
}

/// A new definition of `name`: global in the outermost scope, local in any
/// other, with the number of definitions made so far in this scope as its
/// index.
pub open spec fn defined(table: SymbolTableView, name: Seq<char>) -> (SymbolTableView, Symbol) {
    let symbol = Symbol {
        scope: if table.outer is None {
            SymbolScope::Global
        } else {
            SymbolScope::Local
        },
        index: table.num_definitions,
    };
    (
        SymbolTableView {
            num_definitions: table.num_definitions.wrapping_add(1),
            ..bound(table, name, symbol)
        },
        symbol,
    )
}

/// `name` bound to the built-in function with number `index`.
pub open spec fn defined_builtin(table: SymbolTableView, index: u16, name: Seq<char>) -> (
    SymbolTableView,
    Symbol,
) {
    let symbol = Symbol { scope: SymbolScope::Builtin, index };
    (bound(table, name, symbol), symbol)
}

/// `name` bound to the function that is being defined.
pub open spec fn defined_function_name(table: SymbolTableView, name: Seq<char>) -> (
    SymbolTableView,
    Symbol,
) {
    let symbol = Symbol { scope: SymbolScope::Function, index: 0 };
    (bound(table, name, symbol), symbol)
}

/// `name` bound to a new captured value, which stands for `original` in the
/// scope around.
pub open spec fn defined_free(table: SymbolTableView, original: Symbol, name: Seq<char>) -> (
    SymbolTableView,
    Symbol,
) {
    let symbol = Symbol {
        scope: SymbolScope::Free,
        index: (table.free_symbols.len() as usize) as u16,
    };
    (
        SymbolTableView {
            free_symbols: table.free_symbols.push(original),
            ..bound(table, name, symbol)
        },
        symbol,
    )
}

/// Whether a symbol of an enclosing scope is used as it is, without being
/// captured.
pub open spec fn passes_unchanged(symbol: Symbol) -> bool {
    symbol.scope is Global || symbol.scope is Builtin || symbol.scope is Function
}

/// The meaning of `name` in the scope of `table`: its binding in this scope,
/// or else its meaning in the scope around, as it is for a global, a
/// built-in function and a function name, and as a newly captured value for
/// any other symbol. Capturing changes the table.
pub open spec fn resolved(table: SymbolTableView, name: Seq<char>) -> (
    SymbolTableView,
    Option<Symbol>,
)
    decreases table,
{
    match store_lookup(table.store, name, table.store.len() as int) {
        Some(symbol) => (table, Some(symbol)),
        None => match table.outer {
            None => (table, None),
            Some(outer) => {
                let (around, found) = resolved(*outer, name);
                let here = SymbolTableView { outer: Some(Box::new(around)), ..table };
                match found {
                    None => (here, None),
                    Some(symbol) => if passes_unchanged(symbol) {
                        (here, Some(symbol))
                    } else {
                        let (captured, free) = defined_free(here, symbol, name);
                        (captured, Some(free))
                    },
                }
            },
        },
    }
}

impl SymbolTable {
    pub closed spec fn view(&self) -> SymbolTableView
        decreases self,
    {
        SymbolTableView {
            outer: match self.outer {
                Some(outer) => Some(Box::new(outer.view())),
                None => None,
            },
            store: Seq::new(self.store@.len(), |i: int| (self.store@[i].0@, self.store@[i].1)),
            free_symbols: self.free_symbols@,
            num_definitions: self.num_definitions,
        }
    }

    /// The table of the outermost scope, without a name.
    pub fn new() -> (table: Self)
        ensures
            table@ == empty_table(),
    {
        let table = SymbolTable {
            outer: None,
            store: Vec::new(),
            free_symbols: Vec::new(),
            num_definitions: 0,
        };
        assert(table@.store =~= Seq::empty());
        table
    }

    /// Enters a new scope inside the current one.
    pub fn enclose(&mut self)
        ensures
            final(self)@ == enclosed(old(self)@),
    {
        let mut outer = SymbolTable::new();
        std::mem::swap(&mut outer, self);
        self.outer = Some(Box::new(outer));
        assert(self@.store =~= Seq::empty());
    }

    /// Leaves the current scope for the one around it and returns the
    /// symbols that the scope captured.
    pub fn leave(&mut self) -> (free_symbols: Vec<Symbol>)
        ensures
            (final(self)@, free_symbols@) == left(old(self)@),
    {
        match self.outer.take() {
            Some(outer) => {
                let mut inner = *outer;
                std::mem::swap(&mut inner, self);
                inner.free_symbols
            },
            None => Vec::new(),
        }
    }

    /// Leaves every scope but the outermost.
    pub fn leave_all(&mut self)
        ensures
            final(self)@ == outermost(old(self)@),
            final(self)@.outer is None,
    {
        while !self.is_outermost()
            invariant
                outermost(self@) == outermost(old(self)@),
            decreases depth(self@),
        {
            self.leave();
        }
    }

    fn bind(&mut self, name: String, symbol: Symbol)
        ensures
            final(self)@.store == old(self)@.store.push((name@, symbol)),
            final(self)@.outer == old(self)@.outer,
            final(self).free_symbols == old(self).free_symbols,
            final(self).num_definitions == old(self).num_definitions,
    {
        self.store.push((name, symbol));
        assert(self@.store =~= old(self)@.store.push((name@, symbol)));
    }

    /// Defines `name` in the current scope.
    pub fn define(&mut self, name: String) -> (symbol: Symbol)
        ensures
            (final(self)@, symbol) == defined(old(self)@, name@),
    {
        let scope = match self.outer {
            None => SymbolScope::Global,
            Some(_) => SymbolScope::Local,
        };
        let symbol = Symbol { scope, index: self.num_definitions };
        self.bind(name, symbol);
        self.num_definitions = self.num_definitions.wrapping_add(1);
        symbol
    }

    /// Binds `name` to the built-in function with number `index`.
    pub fn define_builtin(&mut self, index: u16, name: String) -> (symbol: Symbol)
        ensures
            (final(self)@, symbol) == defined_builtin(old(self)@, index, name@),
    {
        let symbol = Symbol { scope: SymbolScope::Builtin, index };
        self.bind(name, symbol);
        symbol
    }

    /// Binds `name` to the function that is being defined.
    pub fn define_function_name(&mut self, name: String) -> (symbol: Symbol)
        ensures
            (final(self)@, symbol) == defined_function_name(old(self)@, name@),
    {
        let symbol = Symbol { scope: SymbolScope::Function, index: 0 };
        self.bind(name, symbol);
        symbol
    }

    fn define_free(&mut self, original: Symbol, name: String) -> (symbol: Symbol)
        ensures
            (final(self)@, symbol) == defined_free(old(self)@, original, name@),
    {
        let symbol = Symbol {
            scope: SymbolScope::Free,
            index: #[verifier::truncate]
            (self.free_symbols.len() as u16),
        };
        self.free_symbols.push(original);
        self.bind(name, symbol);
        symbol
    }

    fn lookup(&self, name: &str) -> (symbol: Option<Symbol>)
        ensures
            symbol == store_lookup(self@.store, name@, self@.store.len() as int),
    {
        let mut i: usize = self.store.len();
        while i > 0
            invariant
                i <= self.store@.len(),
                store_lookup(self@.store, name@, self@.store.len() as int) == store_lookup(
                    self@.store,
                    name@,
                    i as int,
                ),
            decreases i,
        {
            i -= 1;
            if str_eq(self.store[i].0.as_str(), name) {
                return Some(self.store[i].1);
            }
        }
        None
    }

    /// The meaning of `name` in the current scope. A name of an enclosing
    /// function is captured on the way.
    pub fn resolve(&mut self, name: &str) -> (symbol: Option<Symbol>)
        ensures
            (final(self)@, symbol) == resolved(old(self)@, name@),
        decreases *old(self),
    {
        match self.lookup(name) {
            Some(symbol) => {
                return Some(symbol);
            },
            None => {},
        }
        let found = match &mut self.outer {
            Some(outer) => outer.resolve(name),
            None => {
                return None;
            },
        };
        match found {
            None => None,
            Some(symbol) => {
                match symbol.scope {
                    SymbolScope::Global | SymbolScope::Builtin | SymbolScope::Function => Some(
                        symbol,
                    ),
                    _ => Some(self.define_free(symbol, name.to_owned())),
                }
            },
        }
    }

    /// How many names the current scope has defined.
    pub fn num_definitions(&self) -> (count: usize)
        ensures
            count == self@.num_definitions,
    {
        self.num_definitions as usize
    }

    /// Whether the current scope is the outermost.
    pub fn is_outermost(&self) -> (r: bool)
        ensures
            r == (self@.outer is None),
    {
        self.outer.is_none()
    }
}

/// A name resolves, in the scope that defines it, to the symbol of its
/// definition.
pub proof fn law_definition_resolves(table: SymbolTableView, name: Seq<char>)
    ensures
        resolved(defined(table, name).0, name) == (
            defined(table, name).0,
            Some(defined(table, name).1),
        ),
{
    let after = defined(table, name).0;
    assert(after.store[after.store.len() - 1] == (name, defined(table, name).1));
}

/// Inside a function that knows a name as its own, the name resolves to the
/// function itself, with nothing captured, whatever the scopes around
/// define. So a function that a `let` binds can call itself by its name.
pub proof fn law_function_name_resolves(table: SymbolTableView, name: Seq<char>)
    ensures
        resolved(defined_function_name(enclosed(table), name).0, name) == (
            defined_function_name(enclosed(table), name).0,
            Some(Symbol { scope: SymbolScope::Function, index: 0 }),
        ),
{
    let inside = defined_function_name(enclosed(table), name).0;
    assert(inside.store[inside.store.len() - 1] == (
        name,
        Symbol { scope: SymbolScope::Function, index: 0 },
    ));
}

/// A global name resolves to its global symbol inside a function too, with
/// nothing captured.
pub proof fn law_global_resolves_in_function(table: SymbolTableView, name: Seq<char>)
    requires
        table.outer is None,
    ensures
        resolved(enclosed(defined(table, name).0), name) == (
            enclosed(defined(table, name).0),
            Some(Symbol { scope: SymbolScope::Global, index: table.num_definitions }),
        ),
{
    law_definition_resolves(table, name);
    let inside = enclosed(defined(table, name).0);
    assert(store_lookup(inside.store, name, inside.store.len() as int) is None);
}

} // verus!
