//! The items of a document, as the parser hands them over.
//!
//! Every type has a view that holds the same data as mathematical values:
//! identifiers as sequences of characters, paths as sequences of identifiers,
//! lists as sequences. Contracts speak of these views.

use vstd::prelude::*;
use crate::path::Path;

verus! {

/// A peripheral placed in a device. `path` refers to the peripheral's
/// definition.
#[derive(Debug, PartialEq, Eq)]
pub struct PeripheralInstance {
    pub ident: String,
    pub path: Path,
    pub address: u64,
}

pub struct PeripheralInstanceView {
    pub ident: Seq<char>,
    pub path: Seq<Seq<char>>,
    pub address: u64,
}

impl View for PeripheralInstance {
    type V = PeripheralInstanceView;

    open spec fn view(&self) -> PeripheralInstanceView {
        PeripheralInstanceView { ident: self.ident@, path: self.path@, address: self.address }
    }
}

impl Clone for PeripheralInstance {
    fn clone(&self) -> (res: Self)
        ensures
            res@ == self@,
    {
        PeripheralInstance {
            ident: self.ident.clone(),
            path: self.path.clone(),
            address: self.address,
        }
    }
}

/// A device: a named list of peripheral instances.
#[derive(Debug, PartialEq, Eq)]
pub struct DeviceDefinition {
    pub ident: String,
    pub peripherals: Vec<PeripheralInstance>,
}

pub struct DeviceView {
    pub ident: Seq<char>,
    pub peripherals: Seq<PeripheralInstanceView>,
}

impl View for DeviceDefinition {
    type V = DeviceView;

    open spec fn view(&self) -> DeviceView {
        DeviceView {
            ident: self.ident@,
            peripherals: Seq::new(self.peripherals@.len(), |i: int| self.peripherals@[i]@),
        }
    }
}

impl Clone for DeviceDefinition {
    fn clone(&self) -> (res: Self)
        ensures
            res@ == self@,
    {
        let res = DeviceDefinition {
            ident: self.ident.clone(),
            peripherals: self.peripherals.clone(),
        };
        assert(res@.peripherals =~= self@.peripherals);
        res
    }
}

/// What a register instance is an instance of: one register, or an array of
/// them. `path` refers to the register's definition.
#[derive(Debug, PartialEq, Eq)]
pub enum RegisterType {
    Single { path: Path },
    Array { path: Path, size: u64 },
}

pub enum RegisterTypeView {
    Single { path: Seq<Seq<char>> },
    Array { path: Seq<Seq<char>>, size: u64 },
}

impl RegisterTypeView {
    /// The reference to the register's definition.
    pub open spec fn path(self) -> Seq<Seq<char>> {
        match self {
            RegisterTypeView::Single { path } => path,
            RegisterTypeView::Array { path, .. } => path,
        }
    }
}

impl View for RegisterType {
    type V = RegisterTypeView;

    open spec fn view(&self) -> RegisterTypeView {
        match self {
            RegisterType::Single { path } => RegisterTypeView::Single { path: path@ },
            RegisterType::Array { path, size } => RegisterTypeView::Array {
                path: path@,
                size: *size,
            },
        }
    }
}

impl Clone for RegisterType {
    fn clone(&self) -> (res: Self)
        ensures
            res@ == self@,
    {
        match self {
            RegisterType::Single { path } => RegisterType::Single { path: path.clone() },
            RegisterType::Array { path, size } => RegisterType::Array {
                path: path.clone(),
                size: *size,
            },
        }
    }
}

/// A register placed in a peripheral.
#[derive(Debug, PartialEq, Eq)]
pub struct RegisterInstance {
    pub ident: String,
    pub ty: RegisterType,
}

pub struct RegisterInstanceView {
    pub ident: Seq<char>,
    pub ty: RegisterTypeView,
}

impl View for RegisterInstance {
    type V = RegisterInstanceView;

    open spec fn view(&self) -> RegisterInstanceView {
        RegisterInstanceView { ident: self.ident@, ty: self.ty@ }
    }
}

impl Clone for RegisterInstance {
    fn clone(&self) -> (res: Self)
        ensures
            res@ == self@,
    {
        RegisterInstance { ident: self.ident.clone(), ty: self.ty.clone() }
    }
}

/// A place in a peripheral's address space: it holds one register instance,
/// or several alternatives that overlay each other.
#[derive(Debug, PartialEq, Eq)]
pub enum RegisterSlot {
    Single { instance: RegisterInstance, offset: u64 },
    Union { alternatives: Vec<RegisterInstance>, offset: u64 },
}

pub enum RegisterSlotView {
    Single { instance: RegisterInstanceView, offset: u64 },
    Union { alternatives: Seq<RegisterInstanceView>, offset: u64 },
}

impl View for RegisterSlot {
    type V = RegisterSlotView;

    open spec fn view(&self) -> RegisterSlotView {
        match self {
            RegisterSlot::Single { instance, offset } => RegisterSlotView::Single {
                instance: instance@,
                offset: *offset,
            },
            RegisterSlot::Union { alternatives, offset } => RegisterSlotView::Union {
                alternatives: Seq::new(alternatives@.len(), |i: int| alternatives@[i]@),
                offset: *offset,
            },
        }
    }
}

impl Clone for RegisterSlot {
    fn clone(&self) -> (res: Self)
        ensures
            res@ == self@,
    {
        match self {
            RegisterSlot::Single { instance, offset } => RegisterSlot::Single {
                instance: instance.clone(),
                offset: *offset,
            },
            RegisterSlot::Union { alternatives, offset } => {
                let res = RegisterSlot::Union {
                    alternatives: alternatives.clone(),
                    offset: *offset,
                };
                assert(res@->Union_alternatives =~= self@->Union_alternatives);
                res
            },
        }
    }
}

/// A peripheral: a named list of register slots.
#[derive(Debug, PartialEq, Eq)]
pub struct PeripheralDefinition {
    pub ident: String,
    pub registers: Vec<RegisterSlot>,
}

pub struct PeripheralView {
    pub ident: Seq<char>,
    pub registers: Seq<RegisterSlotView>,
}

impl View for PeripheralDefinition {
    type V = PeripheralView;

    open spec fn view(&self) -> PeripheralView {
        PeripheralView {
            ident: self.ident@,
            registers: Seq::new(self.registers@.len(), |i: int| self.registers@[i]@),
        }
    }
}

impl Clone for PeripheralDefinition {
    fn clone(&self) -> (res: Self)
        ensures
            res@ == self@,
    {
        let res = PeripheralDefinition {
            ident: self.ident.clone(),
            registers: self.registers.clone(),
        };
        assert(res@.registers =~= self@.registers);
        res
    }
}

/// A register. It refers to no other definition.
#[derive(Debug, PartialEq, Eq)]
pub struct RegisterDefinition {
    pub ident: String,
    pub size: u64,
}

pub struct RegisterView {
    pub ident: Seq<char>,
    pub size: u64,
}

impl View for RegisterDefinition {
    type V = RegisterView;

    open spec fn view(&self) -> RegisterView {
        RegisterView { ident: self.ident@, size: self.size }
    }
}

impl Clone for RegisterDefinition {
    fn clone(&self) -> (res: Self)
        ensures
            res@ == self@,
    {
        RegisterDefinition { ident: self.ident.clone(), size: self.size }
    }
}

/// An import. It defines nothing.
#[derive(Debug, PartialEq, Eq)]
pub struct Use {
    pub path: Path,
}

impl Clone for Use {
    fn clone(&self) -> (res: Self)
        ensures
            res.path@ == self.path@,
    {
        Use { path: self.path.clone() }
    }
}

/// A module. Without content it is declared here and defined elsewhere, and
/// nothing is known of what it holds.
#[derive(Debug, PartialEq, Eq)]
pub struct Module {
    pub ident: String,
    pub content: Option<Vec<Item>>,
}

/// One item of a document.
#[derive(Debug, PartialEq, Eq)]
pub enum Item {
    Use(Use),
    Mod(Module),
    Device(DeviceDefinition),
    Peripheral(PeripheralDefinition),
    Register(RegisterDefinition),
}

pub struct ModuleView {
    pub ident: Seq<char>,
    pub content: Option<Seq<ItemView>>,
}

pub enum ItemView {
    Use(Seq<Seq<char>>),
    Mod(ModuleView),
    Device(DeviceView),
    Peripheral(PeripheralView),
    Register(RegisterView),
}

/// The view of an item: the same tree with every leaf replaced by its view.
///
/// The content of a module is built index by index; the bounds test is what
/// shows that the walk goes down the tree, and no index outside the bounds is
/// ever looked at.
pub open spec fn item_view(item: Item) -> ItemView
    decreases item,
{
    match item {
        Item::Use(u) => ItemView::Use(u.path@),
        Item::Mod(m) => ItemView::Mod(
            ModuleView {
                ident: m.ident@,
                content: match m.content {
                    None => None,
                    Some(items) => Some(
                        Seq::new(
                            items@.len(),
                            |i: int|
                                if 0 <= i < items@.len() {
                                    item_view(items@[i])
                                } else {
                                    ItemView::Use(Seq::empty())
                                },
                        ),
                    ),
                },
            },
        ),
        Item::Device(d) => ItemView::Device(d@),
        Item::Peripheral(p) => ItemView::Peripheral(p@),
        Item::Register(r) => ItemView::Register(r@),
    }
}

impl View for Item {
    type V = ItemView;

    open spec fn view(&self) -> ItemView {
        item_view(*self)
    }
}

/// The views of a list of items, in order.
pub open spec fn item_views(items: Seq<Item>) -> Seq<ItemView> {
    Seq::new(items.len(), |i: int| items[i]@)
}

/// The view of a module with content lists the views of its items.
pub proof fn lemma_module_view(module: Module)
    ensures
        Item::Mod(module)@ == ItemView::Mod(
            ModuleView {
                ident: module.ident@,
                content: match module.content {
                    None => None,
                    Some(items) => Some(item_views(items@)),
                },
            },
        ),
{
    match module.content {
        None => {},
        Some(items) => {
            let c = Item::Mod(module)@->Mod_0.content->Some_0;
            assert(c =~= item_views(items@));
        },
    }
}

/// A deep copy of `item`.
pub fn clone_item(item: &Item) -> (res: Item)
    ensures
        res@ == item@,
    decreases item,
{
    match item {
        Item::Use(u) => Item::Use(u.clone()),
        Item::Mod(m) => {
            let content = match &m.content {
                None => None,
                Some(items) => Some(clone_items(items)),
            };
            let module = Module { ident: m.ident.clone(), content };
            proof {
                lemma_module_view(module);
                lemma_module_view(*m);
            }
            Item::Mod(module)
        },
        Item::Device(d) => Item::Device(d.clone()),
        Item::Peripheral(p) => Item::Peripheral(p.clone()),
        Item::Register(r) => Item::Register(r.clone()),
    }
}

/// A deep copy of `items`, in order.
pub fn clone_items(items: &Vec<Item>) -> (res: Vec<Item>)
    ensures
        item_views(res@) == item_views(items@),
    decreases items,
{
    let mut res: Vec<Item> = Vec::new();
    let mut i: usize = 0;
    while i < items.len()
        invariant
            i <= items@.len(),
            res@.len() == i,
            forall|j: int| 0 <= j < i ==> res@[j]@ == items@[j]@,
        decreases items@.len() - i,
    {
        res.push(clone_item(&items[i]));
        i += 1;
    }
    assert(item_views(res@) =~= item_views(items@));
    res
}

impl Clone for Module {
    fn clone(&self) -> (res: Self)
        ensures
            Item::Mod(res)@ == Item::Mod(*self)@,
    {
        let content = match &self.content {
            None => None,
            Some(items) => Some(clone_items(items)),
        };
        let res = Module { ident: self.ident.clone(), content };
        proof {
            lemma_module_view(res);
            lemma_module_view(*self);
        }
        res
    }
}

impl Clone for Item {
    fn clone(&self) -> (res: Self)
        ensures
            res@ == self@,
    {
        clone_item(self)
    }
}

} // verus!
