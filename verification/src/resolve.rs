//! Rewriting references into fully-qualified paths.
//!
//! A reference found inside a definition is either already anchored at the
//! root of the document, or it is meant relative to the container in which
//! the definition stands. Resolving it makes it absolute.

use vstd::prelude::*;
use crate::item::{
    DeviceDefinition, DeviceView, PeripheralDefinition, PeripheralInstanceView, PeripheralView,
    RegisterInstance, RegisterInstanceView, RegisterSlot, RegisterSlotView, RegisterType,
    RegisterTypeView,
};
use crate::path::{root_anchor, Path};

verus! {

/// A reference is absolute when its first segment is the root anchor.
pub open spec fn is_absolute(reference: Seq<Seq<char>>) -> bool {
    reference.len() > 0 && reference[0] == root_anchor()
}

/// The fully-qualified path that `reference` names when it is met inside the
/// container `current`.
pub open spec fn resolved(current: Seq<Seq<char>>, reference: Seq<Seq<char>>) -> Seq<Seq<char>> {
    if is_absolute(reference) {
        reference
    } else {
        current + reference
    }
}

/// Whether `ident` is the root anchor.
pub fn is_root_anchor(ident: &String) -> (res: bool)
    ensures
        res == (ident@ == root_anchor()),
{
    let anchor = "crate".to_owned();
    *ident == anchor
}

/// Makes `name` fully qualified: a reference that starts at the root anchor
/// stays as it is, any other one is prefixed with `current_path`.
pub fn resolve_fully_qualified_name(current_path: &Path, name: &mut Path)
    requires
        old(name)@.len() > 0,
    ensures
        is_absolute(old(name)@) ==> final(name)@ == old(name)@,
        !is_absolute(old(name)@) ==> final(name)@ == current_path@ + old(name)@,
        final(name)@ == resolved(current_path@, old(name)@),
{
    if !is_root_anchor(&name.segments[0]) {
        let mut new_name = current_path.clone();
        new_name.segments.append(&mut name.segments);
        *name = new_name;
        assert(name@ =~= current_path@ + old(name)@);
    }
}

/// A device with every reference to a peripheral resolved inside `base`.
pub open spec fn resolved_device(base: Seq<Seq<char>>, device: DeviceView) -> DeviceView {
    DeviceView {
        ident: device.ident,
        peripherals: device.peripherals.map_values(
            |p: PeripheralInstanceView|
                PeripheralInstanceView {
                    ident: p.ident,
                    path: resolved(base, p.path),
                    address: p.address,
                },
        ),
    }
}

/// A register type with its reference resolved inside `base`.
pub open spec fn resolved_register_type(base: Seq<Seq<char>>, ty: RegisterTypeView)
    -> RegisterTypeView {
    match ty {
        RegisterTypeView::Single { path } => RegisterTypeView::Single {
            path: resolved(base, path),
        },
        RegisterTypeView::Array { path, size } => RegisterTypeView::Array {
            path: resolved(base, path),
            size,
        },
    }
}

/// A register instance with its reference resolved inside `base`.
pub open spec fn resolved_instance(base: Seq<Seq<char>>, instance: RegisterInstanceView)
    -> RegisterInstanceView {
    RegisterInstanceView { ident: instance.ident, ty: resolved_register_type(base, instance.ty) }
}

/// A register slot with the reference of its instance, or of each of its
/// alternatives, resolved inside `base`.
pub open spec fn resolved_slot(base: Seq<Seq<char>>, slot: RegisterSlotView) -> RegisterSlotView {
    match slot {
        RegisterSlotView::Single { instance, offset } => RegisterSlotView::Single {
            instance: resolved_instance(base, instance),
            offset,
        },
        RegisterSlotView::Union { alternatives, offset } => RegisterSlotView::Union {
            alternatives: alternatives.map_values(
                |a: RegisterInstanceView| resolved_instance(base, a),
            ),
            offset,
        },
    }
}

/// A peripheral with every reference to a register resolved inside `base`.
pub open spec fn resolved_peripheral(base: Seq<Seq<char>>, peripheral: PeripheralView)
    -> PeripheralView {
    PeripheralView {
        ident: peripheral.ident,
        registers: peripheral.registers.map_values(|s: RegisterSlotView| resolved_slot(base, s)),
    }
}

/// Every reference in the device has at least one segment.
pub open spec fn device_references_named(device: DeviceView) -> bool {
    forall|i: int| 0 <= i < device.peripherals.len() ==> (#[trigger] device.peripherals[i]).path.len() > 0
}

/// Every reference in the slot has at least one segment.
pub open spec fn slot_references_named(slot: RegisterSlotView) -> bool {
    match slot {
        RegisterSlotView::Single { instance, .. } => instance.ty.path().len() > 0,
        RegisterSlotView::Union { alternatives, .. } => forall|i: int|
            0 <= i < alternatives.len() ==> (#[trigger] alternatives[i]).ty.path().len() > 0,
    }
}

/// Every reference in the peripheral has at least one segment.
pub open spec fn peripheral_references_named(peripheral: PeripheralView) -> bool {
    forall|i: int|
        0 <= i < peripheral.registers.len() ==> slot_references_named(
            #[trigger] peripheral.registers[i],
        )
}

/// Resolves, inside `base`, the reference of every peripheral instance of
/// `device`.
pub fn resolve_device_references(base: &Path, device: &mut DeviceDefinition)
    requires
        device_references_named(old(device)@),
    ensures
        final(device)@ == resolved_device(base@, old(device)@),
{
    let mut i: usize = 0;
    while i < device.peripherals.len()
        invariant
            device_references_named(old(device)@),
            device.ident == old(device).ident,
            device.peripherals@.len() == old(device).peripherals@.len(),
            i <= device.peripherals@.len(),
            forall|j: int|
                0 <= j < i ==> (#[trigger] device.peripherals@[j])@ == resolved_device(
                    base@,
                    old(device)@,
                ).peripherals[j],
            forall|j: int|
                i <= j < device.peripherals@.len() ==> #[trigger] device.peripherals@[j] == old(
                    device,
                ).peripherals@[j],
        decreases device.peripherals@.len() - i,
    {
        assert(old(device)@.peripherals[i as int].path.len() > 0);
        resolve_fully_qualified_name(base, &mut device.peripherals[i].path);
        i += 1;
    }
    assert(device@.peripherals =~= resolved_device(base@, old(device)@).peripherals);
}

/// Resolves the reference of a register type inside `base`.
pub fn resolve_register_type(base: &Path, ty: &mut RegisterType)
    requires
        old(ty)@.path().len() > 0,
    ensures
        final(ty)@ == resolved_register_type(base@, old(ty)@),
{
    match ty {
        RegisterType::Single { path } => resolve_fully_qualified_name(base, path),
        RegisterType::Array { path, .. } => resolve_fully_qualified_name(base, path),
    }
}

/// Resolves, inside `base`, the reference of every register instance in
/// `slot`: the one of a single slot, each alternative of a union.
pub fn resolve_slot_references(base: &Path, slot: &mut RegisterSlot)
    requires
        slot_references_named(old(slot)@),
    ensures
        final(slot)@ == resolved_slot(base@, old(slot)@),
{
    match slot {
        RegisterSlot::Single { instance, .. } => {
            resolve_register_type(base, &mut instance.ty);
        },
        RegisterSlot::Union { alternatives, .. } => {
            let ghost before = alternatives@;
            assert forall|j: int| 0 <= j < before.len() implies (#[trigger] before[j])@.ty.path().len()
                > 0 by {
                assert(old(slot)@->Union_alternatives[j] == before[j]@);
            }
            let mut i: usize = 0;
            while i < alternatives.len()
                invariant
                    alternatives@.len() == before.len(),
                    i <= alternatives@.len(),
                    forall|j: int| 0 <= j < before.len() ==> (#[trigger] before[j])@.ty.path().len() > 0,
                    forall|j: int|
                        0 <= j < i ==> (#[trigger] alternatives@[j])@ == resolved_instance(
                            base@,
                            before[j]@,
                        ),
                    forall|j: int|
                        i <= j < alternatives@.len() ==> #[trigger] alternatives@[j] == before[j],
                decreases alternatives@.len() - i,
            {
                resolve_register_type(base, &mut alternatives[i].ty);
                i += 1;
            }
        },
    }
    assert(slot@ == resolved_slot(base@, old(slot)@)) by {
        if old(slot)@ is Union {
            assert(slot@->Union_alternatives =~= resolved_slot(
                base@,
                old(slot)@,
            )->Union_alternatives);
        }
    }
}

/// Resolves, inside `base`, every reference to a register in `peripheral`.
pub fn resolve_peripheral_references(base: &Path, peripheral: &mut PeripheralDefinition)
    requires
        peripheral_references_named(old(peripheral)@),
    ensures
        final(peripheral)@ == resolved_peripheral(base@, old(peripheral)@),
{
    let mut i: usize = 0;
    while i < peripheral.registers.len()
        invariant
            peripheral_references_named(old(peripheral)@),
            peripheral.ident == old(peripheral).ident,
            peripheral.registers@.len() == old(peripheral).registers@.len(),
            i <= peripheral.registers@.len(),
            forall|j: int|
                0 <= j < i ==> (#[trigger] peripheral.registers@[j])@ == resolved_slot(
                    base@,
                    old(peripheral).registers@[j]@,
                ),
            forall|j: int|
                i <= j < peripheral.registers@.len() ==> #[trigger] peripheral.registers@[j]
                    == old(peripheral).registers@[j],
        decreases peripheral.registers@.len() - i,
    {
        assert(slot_references_named(old(peripheral)@.registers[i as int]));
        resolve_slot_references(base, &mut peripheral.registers[i]);
        i += 1;
    }
    assert(peripheral@.registers =~= resolved_peripheral(base@, old(peripheral)@).registers);
}

/// Whether every reference in `device` has at least one segment.
pub fn device_has_named_references(device: &DeviceDefinition) -> (res: bool)
    ensures
        res == device_references_named(device@),
{
    let mut i: usize = 0;
    while i < device.peripherals.len()
        invariant
            i <= device.peripherals@.len(),
            forall|j: int| 0 <= j < i ==> (#[trigger] device@.peripherals[j]).path.len() > 0,
        decreases device.peripherals@.len() - i,
    {
        if device.peripherals[i].path.segments.len() == 0 {
            assert(device@.peripherals[i as int].path.len() == 0);
            return false;
        }
        assert(device@.peripherals[i as int].path.len() > 0);
        i += 1;
    }
    true
}

/// Whether the reference in `ty` has at least one segment.
pub fn register_type_has_named_reference(ty: &RegisterType) -> (res: bool)
    ensures
        res == (ty@.path().len() > 0),
{
    match ty {
        RegisterType::Single { path } => path.segments.len() > 0,
        RegisterType::Array { path, .. } => path.segments.len() > 0,
    }
}

/// Whether every reference in `slot` has at least one segment.
pub fn slot_has_named_references(slot: &RegisterSlot) -> (res: bool)
    ensures
        res == slot_references_named(slot@),
{
    match slot {
        RegisterSlot::Single { instance, .. } => register_type_has_named_reference(&instance.ty),
        RegisterSlot::Union { alternatives, .. } => {
            let mut i: usize = 0;
            while i < alternatives.len()
                invariant
                    i <= alternatives@.len(),
                    slot@ is Union,
                    slot@->Union_alternatives.len() == alternatives@.len(),
                    forall|j: int|
                        0 <= j < alternatives@.len() ==> (#[trigger] slot@->Union_alternatives[j])
                            == alternatives@[j]@,
                    forall|j: int|
                        0 <= j < i ==> (#[trigger] slot@->Union_alternatives[j]).ty.path().len() > 0,
                decreases alternatives@.len() - i,
            {
                if !register_type_has_named_reference(&alternatives[i].ty) {
                    assert(slot@->Union_alternatives[i as int].ty.path().len() == 0);
                    return false;
                }
                assert(slot@->Union_alternatives[i as int].ty.path().len() > 0);
                i += 1;
            }
            true
        },
    }
}

/// Whether every reference in `peripheral` has at least one segment.
pub fn peripheral_has_named_references(peripheral: &PeripheralDefinition) -> (res: bool)
    ensures
        res == peripheral_references_named(peripheral@),
{
    let mut i: usize = 0;
    while i < peripheral.registers.len()
        invariant
            i <= peripheral.registers@.len(),
            forall|j: int|
                0 <= j < i ==> slot_references_named(#[trigger] peripheral@.registers[j]),
        decreases peripheral.registers@.len() - i,
    {
        if !slot_has_named_references(&peripheral.registers[i]) {
            assert(!slot_references_named(peripheral@.registers[i as int]));
            return false;
        }
        assert(slot_references_named(peripheral@.registers[i as int]));
        i += 1;
    }
    true
}

} // verus!
