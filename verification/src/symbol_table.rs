//! A scope's table of names: each name stands for a variable or a type.
use vstd::prelude::*;

use crate::ast::{var_type_text, SpecVariableType, VariableType};
use crate::text::{decimal, lit, push_str, str_eq, u64_to_decimal};

verus! {

pub struct VariableInfo {
    pub id: u64,
    pub var_type: VariableType,
}

pub struct TypeInfo {
    pub size: u64,
}

enum Symbol {
    VARIABLE(VariableInfo),
    TYPE(TypeInfo),
}

pub struct SpecVariableInfo {
    pub id: u64,
    pub var_type: SpecVariableType,
}

/// What a name stands for in a table.
pub enum SpecSymbol {
    Variable(SpecVariableInfo),
    Type(u64),
}

impl View for VariableInfo {
    type V = SpecVariableInfo;

    open spec fn view(&self) -> SpecVariableInfo {
        SpecVariableInfo { id: self.id, var_type: self.var_type@ }
    }
}

impl View for TypeInfo {
    type V = u64;

    open spec fn view(&self) -> u64 {
        self.size
    }
}

impl View for Symbol {
    type V = SpecSymbol;

    closed spec fn view(&self) -> SpecSymbol {
        match self {
            Symbol::VARIABLE(v) => SpecSymbol::Variable(v@),
            Symbol::TYPE(t) => SpecSymbol::Type(t.size),
        }
    }
}

impl Clone for VariableType {
    fn clone(&self) -> (r: Self)
        ensures
            r == *self,
    {
        VariableType {
            ident: self.ident.clone(),
            pointer: self.pointer,
            array: self.array,
            array_size: self.array_size,
        }
    }
}

impl Clone for VariableInfo {
    fn clone(&self) -> (r: Self)
        ensures
            r == *self,
    {
        VariableInfo { id: self.id, var_type: self.var_type.clone() }
    }
}

/// The map that a list of entries with distinct names stands for.
pub open spec fn entries_map(s: Seq<(Seq<char>, SpecSymbol)>) -> Map<Seq<char>, SpecSymbol>
    decreases s.len(),
{
    if s.len() == 0 {
        Map::empty()
    } else {
        entries_map(s.drop_last()).insert(s.last().0, s.last().1)
    }
}

/// No name occurs twice.
pub open spec fn distinct_names(s: Seq<(Seq<char>, SpecSymbol)>) -> bool {
    forall|i: int, j: int| 0 <= i < s.len() && 0 <= j < s.len() && i != j ==> #[trigger] s[i].0 != #[trigger] s[j].0
}

/// The names of a list of entries are the domain of its map.
pub proof fn lemma_entries_map_lookup(s: Seq<(Seq<char>, SpecSymbol)>, k: Seq<char>)
    requires
        distinct_names(s),
    ensures
        entries_map(s).contains_key(k) <==> exists|i: int| 0 <= i < s.len() && s[i].0 == k,
        forall|i: int| 0 <= i < s.len() && s[i].0 == k ==> entries_map(s)[k] == s[i].1,
    decreases s.len(),
{
    if s.len() > 0 {
        let t = s.drop_last();
        assert(distinct_names(t));
        lemma_entries_map_lookup(t, k);
        if k != s.last().0 {
            if exists|i: int| 0 <= i < s.len() && s[i].0 == k {
                let i = choose|i: int| 0 <= i < s.len() && s[i].0 == k;
                assert(t[i].0 == k);
            }
        }
    }
}

/// Replacing the symbol of a name that is present updates the map at that name.
pub proof fn lemma_entries_map_update(s: Seq<(Seq<char>, SpecSymbol)>, i: int, v: SpecSymbol)
    requires
        distinct_names(s),
        0 <= i < s.len(),
    ensures
        distinct_names(s.update(i, (s[i].0, v))),
        entries_map(s.update(i, (s[i].0, v))) == entries_map(s).insert(s[i].0, v),
    decreases s.len(),
{
    let u = s.update(i, (s[i].0, v));
    assert(distinct_names(u)) by {
        assert forall|a: int, b: int| 0 <= a < u.len() && 0 <= b < u.len() && a != b implies #[trigger] u[a].0 != #[trigger] u[b].0 by {
            assert(u[a].0 == s[a].0);
            assert(u[b].0 == s[b].0);
        }
    }
    if i == s.len() - 1 {
        assert(u.drop_last() =~= s.drop_last());
        assert(entries_map(u) =~= entries_map(s).insert(s[i].0, v));
    } else {
        let t = s.drop_last();
        assert(distinct_names(t));
        lemma_entries_map_update(t, i, v);
        assert(u.drop_last() =~= t.update(i, (s[i].0, v)));
        assert(s.last().0 != s[i].0);
        assert(entries_map(u) =~= entries_map(s).insert(s[i].0, v));
    }
}

/// A table of names, each standing for a variable or a type.
pub struct SymbolTable {
    table: Vec<(String, Symbol)>,
}

impl SymbolTable {
    /// The entries in the order in which their names were first defined.
    pub closed spec fn entries(&self) -> Seq<(Seq<char>, SpecSymbol)> {
        self.table@.map_values(|e: (String, Symbol)| (e.0@, e.1@))
    }

    /// What each defined name stands for.
    pub open spec fn map(&self) -> Map<Seq<char>, SpecSymbol> {
        entries_map(self.entries())
    }

    /// No name occurs twice among the entries.
    #[verifier::type_invariant]
    pub open spec fn inv(&self) -> bool {
        distinct_names(self.entries())
    }

    /// An empty table.
    pub fn new() -> (t: Self)
        ensures
            t.map() == Map::<Seq<char>, SpecSymbol>::empty(),
            t.entries().len() == 0,
    {
        let t = SymbolTable { table: Vec::new() };
        assert(t.entries() =~= Seq::<(Seq<char>, SpecSymbol)>::empty());
        t
    }

    /// The index of the entry for `ident`.
    fn find(&self, ident: &str) -> (r: Option<usize>)
        ensures
            r matches Some(i) ==> i < self.entries().len() && self.entries()[i as int].0 == ident@,
            r is None ==> forall|i: int| 0 <= i < self.entries().len() ==> self.entries()[i].0 != ident@,
    {
        let mut i: usize = 0;
        while i < self.table.len()
            invariant
                i <= self.table@.len(),
                forall|j: int| 0 <= j < i ==> self.entries()[j].0 != ident@,
            decreases self.table@.len() - i,
        {
            if str_eq(self.table[i].0.as_str(), ident) {
                return Some(i);
            }
            i = i + 1;
        }
        None
    }

    fn define(&mut self, ident: &str, symbol: Symbol)
        ensures
            final(self).map() == old(self).map().insert(ident@, symbol@),
    {
        proof { use_type_invariant(&*self); }
        let ghost e = self.entries();
        let found = self.find(ident);
        let mut table: Vec<(String, Symbol)> = Vec::new();
        std::mem::swap(&mut table, &mut self.table);
        match found {
            Some(i) => {
                proof { lemma_entries_map_update(e, i as int, symbol@); }
                let key = table[i].0.clone();
                table.set(i, (key, symbol));
                assert(table@.map_values(|e: (String, Symbol)| (e.0@, e.1@))
                    =~= e.update(i as int, (e[i as int].0, symbol@)));
            },
            None => {
                table.push((ident.to_owned(), symbol));
                assert(table@.map_values(|e: (String, Symbol)| (e.0@, e.1@)) =~= e.push((ident@, symbol@)));
                assert(e.push((ident@, symbol@)).drop_last() =~= e);
            },
        }
        self.table = table;
    }

    /// Defines `ident` as a variable, replacing what it stood for before.
    pub fn define_variable(&mut self, ident: &str, var_info: VariableInfo)
        ensures
            final(self).map() == old(self).map().insert(ident@, SpecSymbol::Variable(var_info@)),
    {
        self.define(ident, Symbol::VARIABLE(var_info));
    }

    /// The variable that `ident` stands for, if it stands for one.
    pub fn get_variable(&self, ident: &str) -> (r: Option<&VariableInfo>)
        ensures
            match self.map().get(ident@) {
                Some(SpecSymbol::Variable(v)) => r matches Some(x) && x@ == v,
                _ => r is None,
            },
    {
        proof {
            use_type_invariant(self);
            lemma_entries_map_lookup(self.entries(), ident@);
        }
        match self.find(ident) {
            Some(i) => match &self.table[i].1 {
                Symbol::VARIABLE(var_info) => Some(var_info),
                _ => None,
            },
            None => None,
        }
    }

    /// Defines `ident` as a type, replacing what it stood for before.
    pub fn define_type(&mut self, ident: &str, type_info: TypeInfo)
        ensures
            final(self).map() == old(self).map().insert(ident@, SpecSymbol::Type(type_info.size)),
    {
        self.define(ident, Symbol::TYPE(type_info));
    }

    /// The type that `ident` stands for, if it stands for one.
    pub fn get_type(&self, ident: &str) -> (r: Option<&TypeInfo>)
        ensures
            match self.map().get(ident@) {
                Some(SpecSymbol::Type(size)) => r matches Some(x) && x.size == size,
                _ => r is None,
            },
    {
        proof {
            use_type_invariant(self);
            lemma_entries_map_lookup(self.entries(), ident@);
        }
        match self.find(ident) {
            Some(i) => match &self.table[i].1 {
                Symbol::TYPE(type_info) => Some(type_info),
                _ => None,
            },
            None => None,
        }
    }
}


/// Read after write: once `define_variable` or `define_type` has made `after` from `before` by
/// binding `name` to `symbol`, a lookup of `name` in `after` finds `symbol` (so `get_variable`
/// finds the variable and `get_type` nothing, or the other way round), and every other name
/// stands for what it stood for in `before`.
pub proof fn law_define_then_lookup(
    before: SymbolTable,
    after: SymbolTable,
    name: Seq<char>,
    symbol: SpecSymbol,
    other: Seq<char>,
)
    requires
        after.map() == before.map().insert(name, symbol),
    ensures
        after.map().get(name) == Some(symbol),
        other != name ==> after.map().get(other) == before.map().get(other),
{
}


/// The map of a table that starts as `m` after the definitions `defs`, in order: each
/// `define_variable` or `define_type` binds its name to its symbol.
pub open spec fn after_definitions(
    m: Map<Seq<char>, SpecSymbol>,
    defs: Seq<(Seq<char>, SpecSymbol)>,
) -> Map<Seq<char>, SpecSymbol>
    decreases defs.len(),
{
    if defs.len() == 0 {
        m
    } else {
        after_definitions(m, defs.drop_last()).insert(defs.last().0, defs.last().1)
    }
}

/// The symbol of the last definition of `name` among `defs`, if there is one.
pub open spec fn last_definition(defs: Seq<(Seq<char>, SpecSymbol)>, name: Seq<char>) -> Option<SpecSymbol>
    decreases defs.len(),
{
    if defs.len() == 0 {
        None
    } else if defs.last().0 == name {
        Some(defs.last().1)
    } else {
        last_definition(defs.drop_last(), name)
    }
}

/// After any sequence of definitions, a table answers for each name by the last definition of
/// that name, and for a name never defined by what it held before (nothing, for a new table).
pub proof fn law_last_definition_wins(
    m: Map<Seq<char>, SpecSymbol>,
    defs: Seq<(Seq<char>, SpecSymbol)>,
    name: Seq<char>,
)
    ensures
        after_definitions(m, defs).get(name) == match last_definition(defs, name) {
            Some(sym) => Some(sym),
            None => m.get(name),
        },
    decreases defs.len(),
{
    if defs.len() > 0 {
        law_last_definition_wins(m, defs.drop_last(), name);
    }
}


/// The line that shows one entry of a table.
pub open spec fn entry_text(e: (Seq<char>, SpecSymbol)) -> Seq<char> {
    match e.1 {
        SpecSymbol::Variable(v) => "name: ["@ + e.0 + " | id: "@ + decimal(v.id as nat) + " | "@
            + var_type_text(v.var_type) + "]\n"@,
        SpecSymbol::Type(size) => "[type: "@ + e.0 + " | size: "@ + decimal(size as nat) + "]\n"@,
    }
}

pub open spec fn entries_text(s: Seq<(Seq<char>, SpecSymbol)>) -> Seq<char>
    decreases s.len(),
{
    if s.len() == 0 {
        Seq::empty()
    } else {
        entries_text(s.drop_last()) + entry_text(s.last())
    }
}

/// `SymbolTable:` and a line for each entry.
pub open spec fn table_text(s: Seq<(Seq<char>, SpecSymbol)>) -> Seq<char> {
    "SymbolTable:\n"@ + entries_text(s)
}

impl SymbolTable {
    /// The printed form of the table, its entries in the order in which their names were
    /// first defined.
    pub fn display(&self) -> (s: String)
        ensures
            s@ == table_text(self.entries()),
    {
        let mut s = lit("SymbolTable:\n");
        let ghost head = s@;
        let ghost es = self.entries();
        assert(es.subrange(0, 0) =~= Seq::<(Seq<char>, SpecSymbol)>::empty());
        assert(s@ =~= head + entries_text(es.subrange(0, 0)));
        let mut i: usize = 0;
        while i < self.table.len()
            invariant
                i <= self.table@.len(),
                es == self.entries(),
                s@ == head + entries_text(es.subrange(0, i as int)),
            decreases self.table@.len() - i,
        {
            let key = &self.table[i].0;
            match &self.table[i].1 {
                Symbol::VARIABLE(var_info) => {
                    push_str(&mut s, "name: [");
                    push_str(&mut s, key.as_str());
                    push_str(&mut s, " | id: ");
                    push_str(&mut s, u64_to_decimal(var_info.id).as_str());
                    push_str(&mut s, " | ");
                    push_str(&mut s, var_info.var_type.display().as_str());
                    push_str(&mut s, "]\n");
                },
                Symbol::TYPE(type_info) => {
                    push_str(&mut s, "[type: ");
                    push_str(&mut s, key.as_str());
                    push_str(&mut s, " | size: ");
                    push_str(&mut s, u64_to_decimal(type_info.size).as_str());
                    push_str(&mut s, "]\n");
                },
            }
            let ghost k = i as int;
            i = i + 1;
            assert(es.subrange(0, k + 1).drop_last() =~= es.subrange(0, k));
            assert(s@ =~= head + entries_text(es.subrange(0, k + 1)));
        }
        assert(es.subrange(0, i as int) =~= es);
        s
    }
}

} // verus!
