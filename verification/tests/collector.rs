use racrc::collect::{copy_content_into_symtable, has_named_references};
use racrc::error::{Error, ErrorKind};
use racrc::item::{
    clone_item, clone_items, DeviceDefinition, Item, Module, PeripheralDefinition,
    PeripheralInstance, RegisterDefinition, RegisterInstance, RegisterSlot, RegisterType, Use,
};
use racrc::path::Path;
use racrc::resolve::{
    device_has_named_references, peripheral_has_named_references, resolve_device_references,
    resolve_peripheral_references, resolve_register_type, resolve_slot_references,
    slot_has_named_references,
};
use racrc::sym_table::{Symbol, SymbolTable};

fn path(segments: &[&str]) -> Path {
    Path { segments: segments.iter().map(|s| s.to_string()).collect() }
}

fn register_def(ident: &str) -> RegisterDefinition {
    RegisterDefinition { ident: ident.to_string(), size: 32 }
}

fn register(ident: &str) -> Item {
    Item::Register(register_def(ident))
}

fn module(ident: &str, content: Vec<Item>) -> Item {
    Item::Mod(Module { ident: ident.to_string(), content: Some(content) })
}

fn opaque(ident: &str) -> Item {
    Item::Mod(Module { ident: ident.to_string(), content: None })
}

fn single(ident: &str, reference: &[&str]) -> RegisterInstance {
    RegisterInstance { ident: ident.to_string(), ty: RegisterType::Single { path: path(reference) } }
}

fn array(ident: &str, reference: &[&str], size: u64) -> RegisterInstance {
    RegisterInstance {
        ident: ident.to_string(),
        ty: RegisterType::Array { path: path(reference), size },
    }
}

fn peripheral_def(ident: &str, registers: Vec<RegisterSlot>) -> PeripheralDefinition {
    PeripheralDefinition { ident: ident.to_string(), registers }
}

fn device_def(ident: &str, peripherals: &[(&str, &[&str], u64)]) -> DeviceDefinition {
    DeviceDefinition {
        ident: ident.to_string(),
        peripherals: peripherals
            .iter()
            .map(|(ident, reference, address)| PeripheralInstance {
                ident: ident.to_string(),
                path: path(reference),
                address: *address,
            })
            .collect(),
    }
}

fn redefined(n: usize) -> Vec<Error> {
    vec![Error { kind: ErrorKind::RedefinedSymbol }; n]
}

fn collect_at_root(content: &[Item]) -> (SymbolTable, Result<(), Vec<Error>>) {
    let mut table = SymbolTable::new();
    assert!(has_named_references(content));
    let result = copy_content_into_symtable(&mut table, &Path::root(), content);
    (table, result)
}

#[test]
fn empty_document_gives_an_empty_table() {
    let (table, result) = collect_at_root(&[]);
    assert_eq!(result, Ok(()));
    assert_eq!(table.len(), 0);
}

#[test]
fn same_ident_at_two_depths_is_no_clash() {
    let content = vec![register("R1"), module("m", vec![register("R1")])];
    let (table, result) = collect_at_root(&content);
    assert_eq!(result, Ok(()));
    assert_eq!(table.len(), 2);
    assert_eq!(table.get(&path(&["crate", "R1"])), Some(Symbol::from(register_def("R1"))));
    assert_eq!(table.get(&path(&["crate", "m", "R1"])), Some(Symbol::from(register_def("R1"))));
    assert!(!table.contains_symbol(&path(&["crate", "m"])));
}

#[test]
fn second_definition_at_one_path_is_one_error() {
    let first = Item::Register(RegisterDefinition { ident: "R1".to_string(), size: 8 });
    let second = Item::Register(RegisterDefinition { ident: "R1".to_string(), size: 16 });
    let (table, result) = collect_at_root(&[first, second]);
    assert_eq!(result, Err(redefined(1)));
    assert_eq!(table.len(), 1);
    assert_eq!(
        table.get(&path(&["crate", "R1"])),
        Some(Symbol::from(RegisterDefinition { ident: "R1".to_string(), size: 8 }))
    );
}

#[test]
fn peripheral_reference_is_resolved_before_it_is_bound() {
    let content = vec![
        Item::Peripheral(peripheral_def(
            "P",
            vec![RegisterSlot::Single { instance: single("r", &["Reg1"]), offset: 4 }],
        )),
        register("Reg1"),
    ];
    let (table, result) = collect_at_root(&content);
    assert_eq!(result, Ok(()));
    assert_eq!(table.len(), 2);
    assert_eq!(
        table.get(&path(&["crate", "P"])),
        Some(Symbol::from(peripheral_def(
            "P",
            vec![RegisterSlot::Single { instance: single("r", &["crate", "Reg1"]), offset: 4 }],
        )))
    );
    assert_eq!(table.get(&path(&["crate", "Reg1"])), Some(Symbol::from(register_def("Reg1"))));
}

#[test]
fn the_document_itself_is_not_rewritten() {
    let content = vec![Item::Peripheral(peripheral_def(
        "P",
        vec![RegisterSlot::Single { instance: single("r", &["Reg1"]), offset: 0 }],
    ))];
    let untouched = clone_items(&content);
    let (_, result) = collect_at_root(&content);
    assert_eq!(result, Ok(()));
    assert_eq!(content, untouched);
}

#[test]
fn errors_at_the_top_and_inside_a_module_both_come_back() {
    let content = vec![
        register("A"),
        register("A"),
        module("m", vec![register("B"), register("B")]),
    ];
    let (table, result) = collect_at_root(&content);
    assert_eq!(result, Err(redefined(2)));
    assert_eq!(table.len(), 2);
    assert!(table.contains_symbol(&path(&["crate", "A"])));
    assert!(table.contains_symbol(&path(&["crate", "m", "B"])));
}

#[test]
fn errors_come_back_from_any_depth() {
    let deep = module(
        "a",
        vec![module("b", vec![module("c", vec![register("X"), register("X"), register("X")])])],
    );
    let content = vec![register("X"), deep, register("X")];
    let (table, result) = collect_at_root(&content);
    assert_eq!(result, Err(redefined(3)));
    assert_eq!(table.len(), 2);
    assert!(table.contains_symbol(&path(&["crate", "X"])));
    assert!(table.contains_symbol(&path(&["crate", "a", "b", "c", "X"])));
}

#[test]
fn the_walk_goes_on_after_an_error() {
    let content = vec![register("A"), register("A"), register("B"), module("m", vec![register("C")])];
    let (table, result) = collect_at_root(&content);
    assert_eq!(result, Err(redefined(1)));
    assert_eq!(table.len(), 3);
    assert!(table.contains_symbol(&path(&["crate", "B"])));
    assert!(table.contains_symbol(&path(&["crate", "m", "C"])));
}

#[test]
fn a_module_written_twice_clashes_on_what_both_define() {
    let content = vec![
        module("m", vec![register("R"), register("S")]),
        module("m", vec![register("R"), register("T")]),
    ];
    let (table, result) = collect_at_root(&content);
    assert_eq!(result, Err(redefined(1)));
    assert_eq!(table.len(), 3);
    assert!(table.contains_symbol(&path(&["crate", "m", "R"])));
    assert!(table.contains_symbol(&path(&["crate", "m", "S"])));
    assert!(table.contains_symbol(&path(&["crate", "m", "T"])));
}

#[test]
fn definitions_of_different_kinds_clash_on_the_ident() {
    let content = vec![
        Item::Device(device_def("X", &[])),
        Item::Peripheral(peripheral_def("X", vec![])),
        register("X"),
    ];
    let (table, result) = collect_at_root(&content);
    assert_eq!(result, Err(redefined(2)));
    assert_eq!(table.len(), 1);
    assert_eq!(table.get(&path(&["crate", "X"])), Some(Symbol::from(device_def("X", &[]))));
}

#[test]
fn a_clash_with_what_the_table_held_before_is_an_error() {
    let mut table = SymbolTable::new();
    assert_eq!(table.add_symbol(Path::root(), Symbol::from(register_def("R"))), Ok(()));
    let result = copy_content_into_symtable(&mut table, &Path::root(), &[register("R"), register("S")]);
    assert_eq!(result, Err(redefined(1)));
    assert_eq!(table.len(), 2);
}

#[test]
fn opaque_module_adds_nothing() {
    let (table, result) = collect_at_root(&[opaque("elsewhere")]);
    assert_eq!(result, Ok(()));
    assert_eq!(table.len(), 0);
    assert!(!table.contains_symbol(&path(&["crate", "elsewhere"])));
}

#[test]
fn opaque_modules_change_nothing_wherever_they_stand() {
    let with = vec![
        opaque("x"),
        register("A"),
        opaque("A"),
        module("m", vec![opaque("y"), register("A"), register("A"), opaque("y")]),
        opaque("x"),
        register("A"),
    ];
    let without = vec![
        register("A"),
        module("m", vec![register("A"), register("A")]),
        register("A"),
    ];
    let (table_with, result_with) = collect_at_root(&with);
    let (table_without, result_without) = collect_at_root(&without);
    assert_eq!(result_with, Err(redefined(2)));
    assert_eq!(result_with, result_without);
    assert_eq!(table_with.len(), 2);
    assert_eq!(table_with.len(), table_without.len());
    for p in [path(&["crate", "A"]), path(&["crate", "m", "A"])].iter() {
        assert_eq!(table_with.get(p), table_without.get(p));
        assert!(table_with.contains_symbol(p));
    }
}

#[test]
fn imports_add_nothing() {
    let content = vec![
        Item::Use(Use { path: path(&["crate", "m", "R"]) }),
        Item::Use(Use { path: path(&[]) }),
        register("R"),
    ];
    let (table, result) = collect_at_root(&content);
    assert_eq!(result, Ok(()));
    assert_eq!(table.len(), 1);
}

#[test]
fn an_empty_module_adds_nothing() {
    let (table, result) = collect_at_root(&[module("m", vec![])]);
    assert_eq!(result, Ok(()));
    assert_eq!(table.len(), 0);
}

#[test]
fn device_references_resolve_in_the_devices_own_container() {
    let content = vec![module(
        "soc",
        vec![Item::Device(device_def(
            "Chip",
            &[("uart0", &["Uart"], 0x1000), ("spi0", &["crate", "bus", "Spi"], 0x2000)],
        ))],
    )];
    let (table, result) = collect_at_root(&content);
    assert_eq!(result, Ok(()));
    assert_eq!(table.len(), 1);
    assert_eq!(
        table.get(&path(&["crate", "soc", "Chip"])),
        Some(Symbol::from(device_def(
            "Chip",
            &[
                ("uart0", &["crate", "soc", "Uart"], 0x1000),
                ("spi0", &["crate", "bus", "Spi"], 0x2000)
            ],
        )))
    );
}

#[test]
fn every_alternative_of_a_union_is_resolved() {
    let content = vec![module(
        "m",
        vec![Item::Peripheral(peripheral_def(
            "P",
            vec![
                RegisterSlot::Union {
                    alternatives: vec![
                        single("a", &["A"]),
                        array("b", &["regs", "B"], 4),
                        single("c", &["crate", "C"]),
                    ],
                    offset: 8,
                },
                RegisterSlot::Single { instance: array("d", &["D"], 2), offset: 12 },
            ],
        ))],
    )];
    let (table, result) = collect_at_root(&content);
    assert_eq!(result, Ok(()));
    assert_eq!(
        table.get(&path(&["crate", "m", "P"])),
        Some(Symbol::from(peripheral_def(
            "P",
            vec![
                RegisterSlot::Union {
                    alternatives: vec![
                        single("a", &["crate", "m", "A"]),
                        array("b", &["crate", "m", "regs", "B"], 4),
                        single("c", &["crate", "C"]),
                    ],
                    offset: 8,
                },
                RegisterSlot::Single { instance: array("d", &["crate", "m", "D"], 2), offset: 12 },
            ],
        )))
    );
}

#[test]
fn a_refused_definition_is_still_an_error_when_it_has_references() {
    let content = vec![
        Item::Device(device_def("D", &[("p", &["P"], 0)])),
        Item::Device(device_def("D", &[("q", &["Q"], 4)])),
    ];
    let (table, result) = collect_at_root(&content);
    assert_eq!(result, Err(redefined(1)));
    assert_eq!(
        table.get(&path(&["crate", "D"])),
        Some(Symbol::from(device_def("D", &[("p", &["crate", "P"], 0)])))
    );
}

#[test]
fn collecting_below_another_container() {
    let mut table = SymbolTable::new();
    let content = vec![
        register("R"),
        Item::Peripheral(peripheral_def(
            "P",
            vec![RegisterSlot::Single { instance: single("r", &["R"]), offset: 0 }],
        )),
    ];
    let result = copy_content_into_symtable(&mut table, &path(&["crate", "a", "b"]), &content);
    assert_eq!(result, Ok(()));
    assert!(table.contains_symbol(&path(&["crate", "a", "b", "R"])));
    assert_eq!(
        table.get(&path(&["crate", "a", "b", "P"])),
        Some(Symbol::from(peripheral_def(
            "P",
            vec![RegisterSlot::Single { instance: single("r", &["crate", "a", "b", "R"]), offset: 0 }],
        )))
    );
}

#[test]
fn collecting_the_same_document_twice_reports_every_definition() {
    let content = vec![register("A"), module("m", vec![register("B")]), opaque("o")];
    let mut table = SymbolTable::new();
    assert_eq!(copy_content_into_symtable(&mut table, &Path::root(), &content), Ok(()));
    assert_eq!(copy_content_into_symtable(&mut table, &Path::root(), &content), Err(redefined(2)));
    assert_eq!(table.len(), 2);
}

#[test]
fn resolve_device_references_rewrites_each_instance() {
    let mut device = device_def("D", &[("a", &["A"], 1), ("b", &["crate", "B"], 2), ("c", &["x", "C"], 3)]);
    resolve_device_references(&path(&["crate", "m"]), &mut device);
    assert_eq!(
        device,
        device_def(
            "D",
            &[("a", &["crate", "m", "A"], 1), ("b", &["crate", "B"], 2), ("c", &["crate", "m", "x", "C"], 3)]
        )
    );
}

#[test]
fn resolve_register_type_keeps_the_kind_and_the_size() {
    let mut one = RegisterType::Single { path: path(&["R"]) };
    resolve_register_type(&path(&["crate"]), &mut one);
    assert_eq!(one, RegisterType::Single { path: path(&["crate", "R"]) });
    let mut many = RegisterType::Array { path: path(&["R"]), size: 7 };
    resolve_register_type(&path(&["crate"]), &mut many);
    assert_eq!(many, RegisterType::Array { path: path(&["crate", "R"]), size: 7 });
}

#[test]
fn resolve_slot_references_keeps_idents_and_offsets() {
    let mut slot = RegisterSlot::Single { instance: single("r", &["R"]), offset: 64 };
    resolve_slot_references(&path(&["crate", "p"]), &mut slot);
    assert_eq!(slot, RegisterSlot::Single { instance: single("r", &["crate", "p", "R"]), offset: 64 });
    let mut union = RegisterSlot::Union { alternatives: vec![], offset: 3 };
    resolve_slot_references(&path(&["crate"]), &mut union);
    assert_eq!(union, RegisterSlot::Union { alternatives: vec![], offset: 3 });
}

#[test]
fn resolve_peripheral_references_rewrites_each_slot() {
    let mut peripheral = peripheral_def(
        "P",
        vec![
            RegisterSlot::Single { instance: single("a", &["A"]), offset: 0 },
            RegisterSlot::Union { alternatives: vec![single("b", &["B"]), single("c", &["C"])], offset: 4 },
        ],
    );
    resolve_peripheral_references(&path(&["crate"]), &mut peripheral);
    assert_eq!(
        peripheral,
        peripheral_def(
            "P",
            vec![
                RegisterSlot::Single { instance: single("a", &["crate", "A"]), offset: 0 },
                RegisterSlot::Union {
                    alternatives: vec![single("b", &["crate", "B"]), single("c", &["crate", "C"])],
                    offset: 4
                },
            ],
        )
    );
}

#[test]
fn a_reference_without_segments_is_found_at_any_depth() {
    assert!(has_named_references(&[]));
    assert!(has_named_references(&[register("R"), opaque("o"), module("m", vec![])]));
    assert!(has_named_references(&[Item::Use(Use { path: path(&[]) })]));
    assert!(!has_named_references(&[Item::Device(device_def("D", &[("a", &["A"], 0), ("b", &[], 0)]))]));
    let unnamed = Item::Peripheral(peripheral_def(
        "P",
        vec![RegisterSlot::Union { alternatives: vec![single("a", &["A"]), array("b", &[], 2)], offset: 0 }],
    ));
    assert!(!has_named_references(&[clone_item(&unnamed)]));
    assert!(!has_named_references(&[register("R"), module("m", vec![module("n", vec![unnamed])])]));
}

#[test]
fn references_of_one_definition_are_checked_one_by_one() {
    assert!(device_has_named_references(&device_def("D", &[])));
    assert!(device_has_named_references(&device_def("D", &[("a", &["A"], 0)])));
    assert!(!device_has_named_references(&device_def("D", &[("a", &[], 0)])));
    let named = RegisterSlot::Single { instance: single("a", &["A"]), offset: 0 };
    let unnamed = RegisterSlot::Single { instance: single("a", &[]), offset: 0 };
    assert!(slot_has_named_references(&named));
    assert!(!slot_has_named_references(&unnamed));
    assert!(slot_has_named_references(&RegisterSlot::Union { alternatives: vec![], offset: 0 }));
    assert!(peripheral_has_named_references(&peripheral_def("P", vec![named])));
    assert!(!peripheral_has_named_references(&peripheral_def("P", vec![unnamed])));
}

#[test]
fn deep_copies_are_equal_to_what_they_copy() {
    let item = module(
        "m",
        vec![
            register("R"),
            opaque("o"),
            Item::Use(Use { path: path(&["crate", "x"]) }),
            Item::Device(device_def("D", &[("a", &["A"], 1)])),
            Item::Peripheral(peripheral_def(
                "P",
                vec![RegisterSlot::Union { alternatives: vec![array("b", &["B"], 2)], offset: 4 }],
            )),
            module("n", vec![register("S")]),
        ],
    );
    assert_eq!(clone_item(&item), item);
    assert_eq!(item.clone(), item);
    let items = vec![item, register("T")];
    assert_eq!(clone_items(&items), items);
}
