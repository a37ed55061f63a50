//! Collecting the definitions of a document into the symbol table.
//!
//! The walk visits the items in the order in which they are written and goes
//! into a module before it goes on to the module's later siblings. What it
//! does is stated in two steps: `declarations` lists the definitions of a
//! document in the order of the walk, each under its fully-qualified path and
//! with its references resolved; `declare_all` binds them one after another,
//! and `redefinitions` counts those that found their path taken.

use vstd::prelude::*;
use crate::error::{Error, ErrorKind};
use crate::item::{item_views, lemma_module_view, Item, ItemView, ModuleView};
use crate::path::Path;
use crate::resolve::{
    device_has_named_references, device_references_named, peripheral_has_named_references,
    peripheral_references_named, resolve_device_references, resolve_peripheral_references,
    resolved_device, resolved_peripheral,
};
use crate::sym_table::{
    declare_all, lemma_declare_all_concat, lemma_declare_one, redefinitions, Declaration, Symbol,
    SymbolTable, SymbolView,
};

verus! {

/// What `item`, standing in the container `base`, declares: a device, a
/// peripheral or a register declares itself, with its references resolved
/// inside `base`; a module declares what its content declares inside the
/// module; an import and a module without content declare nothing.
pub open spec fn item_declarations(base: Seq<Seq<char>>, item: ItemView) -> Seq<Declaration>
    decreases item,
{
    match item {
        ItemView::Use(_) => Seq::empty(),
        ItemView::Device(d) => seq![
            Declaration {
                path: base.push(d.ident),
                symbol: SymbolView::Device(resolved_device(base, d)),
            },
        ],
        ItemView::Peripheral(p) => seq![
            Declaration {
                path: base.push(p.ident),
                symbol: SymbolView::Peripheral(resolved_peripheral(base, p)),
            },
        ],
        ItemView::Register(r) => seq![
            Declaration { path: base.push(r.ident), symbol: SymbolView::Register(r) },
        ],
        ItemView::Mod(m) => match m.content {
            None => Seq::empty(),
            Some(content) => declarations(base.push(m.ident), content),
        },
    }
}

/// What `items`, standing in the container `base`, declare, in the order of
/// the walk.
pub open spec fn declarations(base: Seq<Seq<char>>, items: Seq<ItemView>) -> Seq<Declaration>
    decreases items,
{
    if items.len() == 0 {
        Seq::empty()
    } else {
        declarations(base, items.drop_last()) + item_declarations(base, items.last())
    }
}

/// Every reference inside `item`, at any depth, has at least one segment.
pub open spec fn item_references_named(item: ItemView) -> bool
    decreases item,
{
    match item {
        ItemView::Use(_) => true,
        ItemView::Device(d) => device_references_named(d),
        ItemView::Peripheral(p) => peripheral_references_named(p),
        ItemView::Register(_) => true,
        ItemView::Mod(m) => match m.content {
            None => true,
            Some(content) => forall|i: int|
                0 <= i < content.len() ==> item_references_named(#[trigger] content[i]),
        },
    }
}

/// Every reference inside `items`, at any depth, has at least one segment.
pub open spec fn references_named(items: Seq<ItemView>) -> bool {
    forall|i: int| 0 <= i < items.len() ==> item_references_named(#[trigger] items[i])
}

/// The declarations of a list are those of its first part, then those of
/// the rest.
pub proof fn lemma_declarations_concat(
    base: Seq<Seq<char>>,
    first: Seq<ItemView>,
    rest: Seq<ItemView>,
)
    ensures
        declarations(base, first + rest) == declarations(base, first) + declarations(base, rest),
    decreases rest.len(),
{
    if rest.len() == 0 {
        assert(first + rest =~= first);
        assert(declarations(base, first) + declarations(base, rest) =~= declarations(base, first));
    } else {
        assert((first + rest).drop_last() =~= first + rest.drop_last());
        assert((first + rest).last() == rest.last());
        lemma_declarations_concat(base, first, rest.drop_last());
        assert(declarations(base, first) + declarations(base, rest.drop_last())
            + item_declarations(base, rest.last()) =~= declarations(base, first) + (declarations(
            base,
            rest.drop_last(),
        ) + item_declarations(base, rest.last())));
    }
}

/// Errors add up across depth. Where a module with content stands between
/// the items `before` and the items `after`, the redefinitions of the whole
/// list are those found before the module, those found inside it, at any
/// depth, and those found after it, each counted against the table as the
/// walk has left it by then. None is dropped and none is counted twice.
pub proof fn lemma_errors_accumulate(
    table: Map<Seq<Seq<char>>, SymbolView>,
    base: Seq<Seq<char>>,
    before: Seq<ItemView>,
    module: ModuleView,
    after: Seq<ItemView>,
)
    requires
        module.content is Some,
    ensures
        ({
            let inside = declarations(base.push(module.ident), module.content->Some_0);
            let items = before.push(ItemView::Mod(module)) + after;
            let table_before = declare_all(table, declarations(base, before));
            let table_inside = declare_all(table_before, inside);
            &&& declarations(base, items) == declarations(base, before) + inside + declarations(
                base,
                after,
            )
            &&& redefinitions(table, declarations(base, items)) == redefinitions(
                table,
                declarations(base, before),
            ) + redefinitions(table_before, inside) + redefinitions(
                table_inside,
                declarations(base, after),
            )
            &&& declare_all(table, declarations(base, items)) == declare_all(
                table_inside,
                declarations(base, after),
            )
        }),
{
    let inside = declarations(base.push(module.ident), module.content->Some_0);
    let upto = before.push(ItemView::Mod(module));
    assert(upto.drop_last() =~= before);
    assert(upto.last() == ItemView::Mod(module));
    assert(item_declarations(base, ItemView::Mod(module)) == inside);
    assert(declarations(base, upto) == declarations(base, upto.drop_last()) + item_declarations(
        base,
        upto.last(),
    ));
    lemma_declarations_concat(base, upto, after);
    lemma_declare_all_concat(table, declarations(base, before), inside);
    lemma_declare_all_concat(table, declarations(base, before) + inside, declarations(base, after));
}

/// A module without content is inert: it declares nothing, so it adds no
/// binding and no error.
pub proof fn lemma_opaque_module_is_inert(
    table: Map<Seq<Seq<char>>, SymbolView>,
    base: Seq<Seq<char>>,
    module: ModuleView,
)
    requires
        module.content is None,
    ensures
        item_declarations(base, ItemView::Mod(module)) == Seq::<Declaration>::empty(),
        declare_all(table, item_declarations(base, ItemView::Mod(module))) == table,
        redefinitions(table, item_declarations(base, ItemView::Mod(module))) == 0,
{
}

/// Whether `item` is a module without content.
pub open spec fn is_opaque(item: ItemView) -> bool {
    item matches ItemView::Mod(m) && m.content is None
}

/// `item` with every module without content taken out of it, at any depth.
pub open spec fn item_without_opaque(item: ItemView) -> ItemView
    decreases item,
{
    match item {
        ItemView::Mod(m) => match m.content {
            None => item,
            Some(content) => ItemView::Mod(
                ModuleView { ident: m.ident, content: Some(without_opaque(content)) },
            ),
        },
        _ => item,
    }
}

/// `items` with every module without content taken out, at any depth.
pub open spec fn without_opaque(items: Seq<ItemView>) -> Seq<ItemView>
    decreases items,
{
    if items.len() == 0 {
        Seq::empty()
    } else if is_opaque(items.last()) {
        without_opaque(items.drop_last())
    } else {
        without_opaque(items.drop_last()).push(item_without_opaque(items.last()))
    }
}

/// Modules without content are inert wherever they stand: a document
/// declares the same with them as without them, so the walk leaves the same
/// table and the same errors.
pub proof fn lemma_opaque_modules_are_inert(base: Seq<Seq<char>>, items: Seq<ItemView>)
    ensures
        declarations(base, without_opaque(items)) == declarations(base, items),
    decreases items,
{
    if items.len() > 0 {
        let init = items.drop_last();
        let last = items.last();
        lemma_opaque_modules_are_inert(base, init);
        if is_opaque(last) {
            assert(declarations(base, init) + item_declarations(base, last) =~= declarations(
                base,
                init,
            ));
        } else {
            let kept = without_opaque(init).push(item_without_opaque(last));
            assert(kept.drop_last() =~= without_opaque(init));
            assert(kept.last() == item_without_opaque(last));
            lemma_item_without_opaque(base, last);
        }
    }
}

/// An item declares the same with the modules without content inside it as
/// without them.
pub proof fn lemma_item_without_opaque(base: Seq<Seq<char>>, item: ItemView)
    ensures
        item_declarations(base, item_without_opaque(item)) == item_declarations(base, item),
    decreases item,
{
    match item {
        ItemView::Mod(m) => match m.content {
            None => {},
            Some(content) => {
                lemma_opaque_modules_are_inert(base.push(m.ident), content);
            },
        },
        _ => {},
    }
}

/// The declarations of the first `n + 1` items are those of the first `n`,
/// then those of the item that follows.
pub proof fn lemma_declarations_step(base: Seq<Seq<char>>, items: Seq<ItemView>, n: int)
    requires
        0 <= n < items.len(),
    ensures
        declarations(base, items.take(n + 1)) == declarations(base, items.take(n))
            + item_declarations(base, items[n]),
{
    assert(items.take(n + 1).drop_last() =~= items.take(n));
    assert(items.take(n + 1).last() == items[n]);
}

/// The references inside a module with content are those inside its content.
proof fn lemma_module_references(module: ModuleView)
    requires
        module.content is Some,
    ensures
        item_references_named(ItemView::Mod(module)) == references_named(module.content->Some_0),
{
}

/// Whether every reference inside `content`, at any depth, has at least one
/// segment: whether `content` can be collected.
pub fn has_named_references(content: &[Item]) -> (res: bool)
    ensures
        res == references_named(item_views(content@)),
    decreases content@,
{
    let ghost items = item_views(content@);
    let mut i: usize = 0;
    while i < content.len()
        invariant
            i <= content@.len(),
            items == item_views(content@),
            forall|j: int| 0 <= j < i ==> item_references_named(#[trigger] items[j]),
        decreases content@.len() - i,
    {
        assert(items[i as int] == content@[i as int]@);
        let named = match &content[i] {
            Item::Use(_) => true,
            Item::Device(device) => device_has_named_references(device),
            Item::Peripheral(peripheral) => peripheral_has_named_references(peripheral),
            Item::Register(_) => true,
            Item::Mod(module) => {
                proof {
                    lemma_module_view(*module);
                }
                match &module.content {
                    None => true,
                    Some(module_content) => {
                        let inner = has_named_references(module_content.as_slice());
                        proof {
                            lemma_module_references(items[i as int]->Mod_0);
                        }
                        inner
                    },
                }
            },
        };
        assert(named == item_references_named(items[i as int]));
        if !named {
            return false;
        }
        i += 1;
    }
    true
}

/// Walks `content`, which stands in the container `path`, and binds every
/// definition it holds, at any depth, in `sym_table`.
///
/// A definition whose path is taken is not bound and gives one error; the
/// walk goes on, and the errors of the whole document come back together.
pub fn copy_content_into_symtable(sym_table: &mut SymbolTable, path: &Path, content: &[Item]) -> (res:
    Result<(), Vec<Error>>)
    requires
        references_named(item_views(content@)),
    ensures
        final(sym_table)@ == declare_all(
            old(sym_table)@,
            declarations(path@, item_views(content@)),
        ),
        res is Ok <==> redefinitions(old(sym_table)@, declarations(path@, item_views(content@)))
            == 0,
        res matches Err(errors) ==> errors@.len() == redefinitions(
            old(sym_table)@,
            declarations(path@, item_views(content@)),
        ) && forall|i: int|
            0 <= i < errors@.len() ==> errors@[i] == (Error { kind: ErrorKind::RedefinedSymbol }),
    decreases content@,
{
    let mut errors: Vec<Error> = Vec::new();
    let ghost before = sym_table@;
    let ghost items = item_views(content@);
    let mut i: usize = 0;
    while i < content.len()
        invariant
            i <= content@.len(),
            items == item_views(content@),
            references_named(items),
            sym_table@ == declare_all(before, declarations(path@, items.take(i as int))),
            errors@.len() == redefinitions(before, declarations(path@, items.take(i as int))),
            forall|k: int|
                0 <= k < errors@.len() ==> errors@[k] == (Error {
                    kind: ErrorKind::RedefinedSymbol,
                }),
        decreases content@.len() - i,
    {
        let ghost seen = declarations(path@, items.take(i as int));
        let ghost table = sym_table@;
        proof {
            lemma_declarations_step(path@, items, i as int);
            lemma_declare_all_concat(before, seen, item_declarations(path@, items[i as int]));
            assert(items[i as int] == content@[i as int]@);
            assert(item_references_named(items[i as int]));
        }
        match &content[i] {
            Item::Use(_) => {},
            Item::Device(device) => {
                let mut device = device.clone();
                resolve_device_references(path, &mut device);
                let symbol = Symbol::from(device);
                proof {
                    lemma_declare_one(table, item_declarations(path@, items[i as int])[0]);
                    assert(item_declarations(path@, items[i as int]) =~= seq![
                        item_declarations(path@, items[i as int])[0],
                    ]);
                }
                if let Err(e) = sym_table.add_symbol(path.clone(), symbol) {
                    errors.push(e);
                }
            },
            Item::Peripheral(peripheral) => {
                let mut peripheral = peripheral.clone();
                resolve_peripheral_references(path, &mut peripheral);
                let symbol = Symbol::from(peripheral);
                proof {
                    lemma_declare_one(table, item_declarations(path@, items[i as int])[0]);
                    assert(item_declarations(path@, items[i as int]) =~= seq![
                        item_declarations(path@, items[i as int])[0],
                    ]);
                }
                if let Err(e) = sym_table.add_symbol(path.clone(), symbol) {
                    errors.push(e);
                }
            },
            Item::Register(reg) => {
                let symbol = Symbol::from(reg.clone());
                proof {
                    lemma_declare_one(table, item_declarations(path@, items[i as int])[0]);
                    assert(item_declarations(path@, items[i as int]) =~= seq![
                        item_declarations(path@, items[i as int])[0],
                    ]);
                }
                if let Err(e) = sym_table.add_symbol(path.clone(), symbol) {
                    errors.push(e);
                }
            },
            Item::Mod(module) => {
                match &module.content {
                    None => {
                        proof {
                            lemma_module_view(*module);
                        }
                    },
                    Some(module_content) => {
                        let inner_path = path.child(&module.ident);
                        proof {
                            lemma_module_view(*module);
                            let nested = item_views(module_content@);
                            assert(references_named(nested));
                        }
                        if let Err(mut module_errors) = copy_content_into_symtable(
                            sym_table,
                            &inner_path,
                            module_content.as_slice(),
                        ) {
                            errors.append(&mut module_errors);
                        }
                    },
                }
            },
        }
        i += 1;
    }
    proof {
        assert(items.take(content@.len() as int) =~= items);
    }
    if errors.is_empty() {
        Ok(())
    } else {
        Err(errors)
    }
}

} // verus!
