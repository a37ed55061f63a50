//! The symbol table.
//!
//! It binds each fully-qualified path to the definition that stands there, so
//! that a second definition under the same path is noticed, and so that the
//! definition can be looked up by its path afterwards.

use vstd::prelude::*;
use std::rc::Rc;
use crate::error::{Error, ErrorKind};
use crate::item::{
    DeviceDefinition, DeviceView, PeripheralDefinition, PeripheralView, RegisterDefinition,
    RegisterView,
};
use crate::path::Path;

verus! {

/// A definition that has a name of its own. The definition is shared: a copy
/// of the symbol is another handle to the same definition.
#[derive(Debug, PartialEq)]
pub enum Symbol {
    Device(Rc<DeviceDefinition>),
    Peripheral(Rc<PeripheralDefinition>),
    Register(Rc<RegisterDefinition>),
}

pub enum SymbolView {
    Device(DeviceView),
    Peripheral(PeripheralView),
    Register(RegisterView),
}

impl SymbolView {
    /// The identifier under which the definition is declared.
    pub open spec fn ident(self) -> Seq<char> {
        match self {
            SymbolView::Device(d) => d.ident,
            SymbolView::Peripheral(p) => p.ident,
            SymbolView::Register(r) => r.ident,
        }
    }
}

impl View for Symbol {
    type V = SymbolView;

    open spec fn view(&self) -> SymbolView {
        match self {
            Symbol::Device(d) => SymbolView::Device(d@),
            Symbol::Peripheral(p) => SymbolView::Peripheral(p@),
            Symbol::Register(r) => SymbolView::Register(r@),
        }
    }
}

/// `Rc::clone`: the new handle points at the value that `handle` points at.
#[verifier::external_body]
fn share<T>(handle: &Rc<T>) -> (res: Rc<T>)
    ensures
        res == handle,
{
    Rc::clone(handle)
}

impl Clone for Symbol {
    fn clone(&self) -> (res: Self)
        ensures
            res == *self,
    {
        match self {
            Symbol::Device(d) => Symbol::Device(share(d)),
            Symbol::Peripheral(p) => Symbol::Peripheral(share(p)),
            Symbol::Register(r) => Symbol::Register(share(r)),
        }
    }
}

impl Symbol {
    /// The identifier under which the definition is declared.
    pub fn ident(&self) -> (res: &String)
        ensures
            res@ == self@.ident(),
    {
        match self {
            Symbol::Device(device) => &device.ident,
            Symbol::Peripheral(per) => &per.ident,
            Symbol::Register(reg) => &reg.ident,
        }
    }
}

impl From<DeviceDefinition> for Symbol {
    fn from(s: DeviceDefinition) -> (res: Symbol) {
        Symbol::Device(Rc::new(s))
    }
}

impl vstd::std_specs::convert::FromSpecImpl<DeviceDefinition> for Symbol {
    open spec fn obeys_from_spec() -> bool {
        true
    }

    open spec fn from_spec(s: DeviceDefinition) -> Symbol {
        Symbol::Device(Rc::new(s))
    }
}

impl From<PeripheralDefinition> for Symbol {
    fn from(s: PeripheralDefinition) -> (res: Symbol) {
        Symbol::Peripheral(Rc::new(s))
    }
}

impl vstd::std_specs::convert::FromSpecImpl<PeripheralDefinition> for Symbol {
    open spec fn obeys_from_spec() -> bool {
        true
    }

    open spec fn from_spec(s: PeripheralDefinition) -> Symbol {
        Symbol::Peripheral(Rc::new(s))
    }
}

impl From<RegisterDefinition> for Symbol {
    fn from(s: RegisterDefinition) -> (res: Symbol) {
        Symbol::Register(Rc::new(s))
    }
}

impl vstd::std_specs::convert::FromSpecImpl<RegisterDefinition> for Symbol {
    open spec fn obeys_from_spec() -> bool {
        true
    }

    open spec fn from_spec(s: RegisterDefinition) -> Symbol {
        Symbol::Register(Rc::new(s))
    }
}

/// A definition together with the fully-qualified path it is declared at.
pub struct Declaration {
    pub path: Seq<Seq<char>>,
    pub symbol: SymbolView,
}

/// The table after one declaration: it is bound unless its path is taken.
pub open spec fn declare(table: Map<Seq<Seq<char>>, SymbolView>, declaration: Declaration) -> Map<
    Seq<Seq<char>>,
    SymbolView,
> {
    if table.contains_key(declaration.path) {
        table
    } else {
        table.insert(declaration.path, declaration.symbol)
    }
}

/// The table after the declarations `all`, made in order.
pub open spec fn declare_all(table: Map<Seq<Seq<char>>, SymbolView>, all: Seq<Declaration>) -> Map<
    Seq<Seq<char>>,
    SymbolView,
>
    decreases all.len(),
{
    if all.len() == 0 {
        table
    } else {
        declare(declare_all(table, all.drop_last()), all.last())
    }
}

/// How many of the declarations `all`, made in order, find their path taken:
/// by an entry of `table` or by an earlier one of them.
pub open spec fn redefinitions(table: Map<Seq<Seq<char>>, SymbolView>, all: Seq<Declaration>) -> nat
    decreases all.len(),
{
    if all.len() == 0 {
        0
    } else {
        let earlier = redefinitions(table, all.drop_last());
        if declare_all(table, all.drop_last()).contains_key(all.last().path) {
            earlier + 1
        } else {
            earlier
        }
    }
}

/// Declaring a list is declaring its first part, then the rest.
pub proof fn lemma_declare_all_concat(
    table: Map<Seq<Seq<char>>, SymbolView>,
    first: Seq<Declaration>,
    rest: Seq<Declaration>,
)
    ensures
        declare_all(table, first + rest) == declare_all(declare_all(table, first), rest),
        redefinitions(table, first + rest) == redefinitions(table, first) + redefinitions(
            declare_all(table, first),
            rest,
        ),
    decreases rest.len(),
{
    if rest.len() == 0 {
        assert(first + rest =~= first);
    } else {
        assert((first + rest).drop_last() =~= first + rest.drop_last());
        assert((first + rest).last() == rest.last());
        lemma_declare_all_concat(table, first, rest.drop_last());
    }
}

/// One declaration alone is bound unless its path is taken.
pub proof fn lemma_declare_one(table: Map<Seq<Seq<char>>, SymbolView>, declaration: Declaration)
    ensures
        declare_all(table, seq![declaration]) == declare(table, declaration),
        redefinitions(table, seq![declaration]) == if table.contains_key(declaration.path) {
            1nat
        } else {
            0nat
        },
{
    let one = seq![declaration];
    assert(one.drop_last() =~= Seq::<Declaration>::empty());
    assert(one.last() == declaration);
    assert(declare_all(table, one.drop_last()) == table);
    assert(redefinitions(table, one.drop_last()) == 0);
}

/// A binding, once made, stays as it is: no later declaration replaces it or
/// removes it.
pub proof fn lemma_bound_symbol_is_kept(
    table: Map<Seq<Seq<char>>, SymbolView>,
    all: Seq<Declaration>,
    path: Seq<Seq<char>>,
)
    requires
        table.contains_key(path),
    ensures
        declare_all(table, all).contains_key(path),
        declare_all(table, all)[path] == table[path],
    decreases all.len(),
{
    if all.len() > 0 {
        lemma_bound_symbol_is_kept(table, all.drop_last(), path);
    }
}

/// Of the declarations made at one path that was free, the first is the one
/// found under that path afterwards, whatever was declared later.
pub proof fn lemma_first_declaration_is_bound(
    table: Map<Seq<Seq<char>>, SymbolView>,
    all: Seq<Declaration>,
    i: int,
)
    requires
        0 <= i < all.len(),
        !table.contains_key(all[i].path),
        forall|j: int| 0 <= j < i ==> (#[trigger] all[j]).path != all[i].path,
    ensures
        declare_all(table, all).contains_key(all[i].path),
        declare_all(table, all)[all[i].path] == all[i].symbol,
    decreases all.len(),
{
    let init = all.drop_last();
    if i < all.len() - 1 {
        assert(init[i] == all[i]);
        assert forall|j: int| 0 <= j < i implies (#[trigger] init[j]).path != init[i].path by {
            assert(all[j].path != all[i].path);
        }
        lemma_first_declaration_is_bound(table, init, i);
    } else {
        lemma_declared_paths(table, init, all[i].path);
        if declare_all(table, init).contains_key(all[i].path) {
            let j = choose|j: int| 0 <= j < init.len() && (#[trigger] init[j]).path == all[i].path;
            assert(all[j].path == all[i].path);
        }
    }
}

/// The paths bound after a run of declarations are those bound before and
/// those declared.
pub proof fn lemma_declared_paths(
    table: Map<Seq<Seq<char>>, SymbolView>,
    all: Seq<Declaration>,
    path: Seq<Seq<char>>,
)
    ensures
        declare_all(table, all).contains_key(path) <==> table.contains_key(path) || exists|i: int|
            0 <= i < all.len() && (#[trigger] all[i]).path == path,
    decreases all.len(),
{
    if all.len() > 0 {
        let init = all.drop_last();
        lemma_declared_paths(table, init, path);
        if declare_all(table, all).contains_key(path) && !table.contains_key(path) {
            if declare_all(table, init).contains_key(path) {
                let i = choose|i: int| 0 <= i < init.len() && (#[trigger] init[i]).path == path;
                assert(all[i].path == path);
            } else {
                assert(all[all.len() - 1].path == path);
            }
        }
        if exists|i: int| 0 <= i < all.len() && (#[trigger] all[i]).path == path {
            let i = choose|i: int| 0 <= i < all.len() && (#[trigger] all[i]).path == path;
            if i < all.len() - 1 {
                assert(init[i].path == path);
            }
        }
    }
}

/// Every declaration is accounted for: it is bound, or it is counted as a
/// redefinition. The bindings gained and the redefinitions together are as
/// many as the declarations made.
pub proof fn lemma_bound_or_reported(table: Map<Seq<Seq<char>>, SymbolView>, all: Seq<Declaration>)
    requires
        table.dom().finite(),
    ensures
        declare_all(table, all).dom().finite(),
        declare_all(table, all).dom().len() + redefinitions(table, all) == table.dom().len()
            + all.len(),
    decreases all.len(),
{
    if all.len() > 0 {
        lemma_bound_or_reported(table, all.drop_last());
    }
}

/// One binding of the table.
#[derive(Debug)]
struct Entry {
    path: Path,
    symbol: Symbol,
}

/// The bindings of `entries` as a map, a later entry taking the place of an
/// earlier one with the same path.
spec fn bindings(entries: Seq<Entry>) -> Map<Seq<Seq<char>>, SymbolView>
    decreases entries.len(),
{
    if entries.len() == 0 {
        Map::empty()
    } else {
        bindings(entries.drop_last()).insert(entries.last().path@, entries.last().symbol@)
    }
}

/// No two entries have the same path.
spec fn distinct_paths(entries: Seq<Entry>) -> bool {
    forall|i: int, j: int|
        0 <= i < j < entries.len() ==> (#[trigger] entries[i]).path@ != (#[trigger] entries[j]).path@
}

proof fn lemma_bindings_domain(entries: Seq<Entry>, key: Seq<Seq<char>>)
    ensures
        bindings(entries).contains_key(key) <==> exists|i: int|
            0 <= i < entries.len() && (#[trigger] entries[i]).path@ == key,
    decreases entries.len(),
{
    if entries.len() > 0 {
        let init = entries.drop_last();
        lemma_bindings_domain(init, key);
        if bindings(entries).contains_key(key) {
            if entries.last().path@ == key {
                assert(entries[entries.len() - 1].path@ == key);
            } else {
                let i = choose|i: int| 0 <= i < init.len() && (#[trigger] init[i]).path@ == key;
                assert(entries[i].path@ == key);
            }
        }
        if exists|i: int| 0 <= i < entries.len() && (#[trigger] entries[i]).path@ == key {
            let i = choose|i: int| 0 <= i < entries.len() && (#[trigger] entries[i]).path@ == key;
            if i < entries.len() - 1 {
                assert(init[i].path@ == key);
            }
        }
    }
}

proof fn lemma_distinct_prefix(entries: Seq<Entry>)
    requires
        distinct_paths(entries),
        entries.len() > 0,
    ensures
        distinct_paths(entries.drop_last()),
{
    let init = entries.drop_last();
    assert forall|a: int, b: int| 0 <= a < b < init.len() implies (#[trigger] init[a]).path@
        != (#[trigger] init[b]).path@ by {
        assert(entries[a].path@ != entries[b].path@);
    }
}

proof fn lemma_bindings_len(entries: Seq<Entry>)
    requires
        distinct_paths(entries),
    ensures
        bindings(entries).dom().finite(),
        bindings(entries).dom().len() == entries.len(),
    decreases entries.len(),
{
    if entries.len() > 0 {
        let init = entries.drop_last();
        lemma_distinct_prefix(entries);
        lemma_bindings_len(init);
        lemma_bindings_domain(init, entries.last().path@);
        if bindings(init).contains_key(entries.last().path@) {
            let i = choose|i: int| 0 <= i < init.len() && (#[trigger] init[i]).path@ == entries.last().path@;
            assert(entries[i].path@ == entries[entries.len() - 1].path@);
        }
    }
}

proof fn lemma_bindings_value(entries: Seq<Entry>, i: int)
    requires
        distinct_paths(entries),
        0 <= i < entries.len(),
    ensures
        bindings(entries).contains_key(entries[i].path@),
        bindings(entries)[entries[i].path@] == entries[i].symbol@,
    decreases entries.len(),
{
    let init = entries.drop_last();
    if i < entries.len() - 1 {
        lemma_distinct_prefix(entries);
        lemma_bindings_value(init, i);
        assert(entries[i].path@ != entries[entries.len() - 1].path@);
    }
}

/// The bindings from fully-qualified paths to definitions. Entries are only
/// ever added: none is replaced and none is removed.
#[derive(Debug)]
pub struct SymbolTable {
    table: Vec<Entry>,
}

impl View for SymbolTable {
    type V = Map<Seq<Seq<char>>, SymbolView>;

    closed spec fn view(&self) -> Map<Seq<Seq<char>>, SymbolView> {
        bindings(self.table@)
    }
}

impl SymbolTable {
    #[verifier::type_invariant]
    spec fn unique_paths(&self) -> bool {
        distinct_paths(self.table@)
    }

    /// An empty table.
    pub fn new() -> (res: Self)
        ensures
            res@ == Map::<Seq<Seq<char>>, SymbolView>::empty(),
    {
        SymbolTable { table: Vec::new() }
    }

    /// Where the entry for `name` stands, if there is one.
    fn position(&self, name: &Path) -> (res: Option<usize>)
        ensures
            match res {
                Some(i) => i < self.table@.len() && self.table@[i as int].path@ == name@,
                None => forall|j: int|
                    0 <= j < self.table@.len() ==> (#[trigger] self.table@[j]).path@ != name@,
            },
    {
        let mut i: usize = 0;
        while i < self.table.len()
            invariant
                i <= self.table@.len(),
                forall|j: int| 0 <= j < i ==> (#[trigger] self.table@[j]).path@ != name@,
            decreases self.table@.len() - i,
        {
            if self.table[i].path.same_as(name) {
                return Some(i);
            }
            i += 1;
        }
        None
    }

    /// Binds `sym` under the path of its own identifier inside `path`.
    ///
    /// Where that path is bound already, the table stays as it is and the
    /// symbol is refused.
    pub fn add_symbol(&mut self, path: Path, sym: Symbol) -> (res: Result<(), Error>)
        ensures
            old(self)@.contains_key(path@.push(sym@.ident())) ==> res == Err::<(), Error>(
                Error { kind: ErrorKind::RedefinedSymbol },
            ) && final(self)@ == old(self)@,
            !old(self)@.contains_key(path@.push(sym@.ident())) ==> res == Ok::<(), Error>(())
                && final(self)@ == old(self)@.insert(path@.push(sym@.ident()), sym@),
            final(self)@ == declare(
                old(self)@,
                (Declaration { path: path@.push(sym@.ident()), symbol: sym@ }),
            ),
    {
        let key = path.child(sym.ident());
        proof {
            use_type_invariant(&*self);
            lemma_bindings_domain(self.table@, key@);
        }
        match self.position(&key) {
            Some(_) => Err(Error::new(ErrorKind::RedefinedSymbol)),
            None => {
                // The entries are taken out for the push and put back whole, so
                // that the table holds distinct paths whenever it is looked at.
                let mut entries: Vec<Entry> = Vec::new();
                core::mem::swap(&mut self.table, &mut entries);
                let ghost before = entries@;
                entries.push(Entry { path: key, symbol: sym });
                assert(entries@.drop_last() =~= before);
                core::mem::swap(&mut self.table, &mut entries);
                Ok(())
            },
        }
    }

    /// The number of definitions bound.
    pub fn len(&self) -> (res: usize)
        ensures
            self@.dom().finite(),
            res == self@.dom().len(),
    {
        proof {
            use_type_invariant(self);
            lemma_bindings_len(self.table@);
        }
        self.table.len()
    }

    /// Whether a definition is bound under `fully_qualified_name`.
    pub fn contains_symbol(&self, fully_qualified_name: &Path) -> (res: bool)
        ensures
            res == self@.contains_key(fully_qualified_name@),
    {
        proof {
            lemma_bindings_domain(self.table@, fully_qualified_name@);
        }
        self.position(fully_qualified_name).is_some()
    }

    /// The symbol bound under `fully_qualified_name`, if there is one.
    pub fn get(&self, fully_qualified_name: &Path) -> (res: Option<Symbol>)
        ensures
            match res {
                Some(symbol) => self@.contains_key(fully_qualified_name@) && symbol@
                    == self@[fully_qualified_name@],
                None => !self@.contains_key(fully_qualified_name@),
            },
    {
        proof {
            use_type_invariant(self);
            lemma_bindings_domain(self.table@, fully_qualified_name@);
        }
        match self.position(fully_qualified_name) {
            Some(i) => {
                proof {
                    lemma_bindings_value(self.table@, i as int);
                }
                Some(self.table[i].symbol.clone())
            },
            None => None,
        }
    }
}

} // verus!
