use kernel_core::manager::{DeviceInfo, DeviceManager, IrqAction};

#[test]
fn irq_dispatch() {
    let mut m = DeviceManager::new();
    m.add_device(DeviceInfo { dev_id: 1, irq: Some(10) });
    m.add_device(DeviceInfo { dev_id: 2, irq: None });
    m.add_device(DeviceInfo { dev_id: 3, irq: Some(8) });
    m.build_irq_map();
    assert_eq!(m.handle_irq(Some(10)), IrqAction::Dispatch { dev_id: 1, irq: 10 });
    assert_eq!(m.handle_irq(Some(8)), IrqAction::Dispatch { dev_id: 3, irq: 8 });
    assert_eq!(m.handle_irq(Some(5)), IrqAction::Unknown { irq: 5 });
    assert_eq!(m.handle_irq(None), IrqAction::NoInterrupt);
    assert_eq!(m.device_irqs(), vec![10, 8]);
    assert_eq!(m.irq_context(), 1);
}

#[test]
fn devices_replace_by_id() {
    let mut m = DeviceManager::new();
    m.add_device(DeviceInfo { dev_id: 1, irq: Some(10) });
    m.add_device(DeviceInfo { dev_id: 1, irq: Some(11) });
    assert_eq!(m.devices().len(), 1);
    assert_eq!(m.get(1), Some(DeviceInfo { dev_id: 1, irq: Some(11) }));
    assert_eq!(m.get(2), None);
    m.add_device(DeviceInfo { dev_id: 4, irq: Some(11) });
    m.build_irq_map();
    assert_eq!(m.handle_irq(Some(11)), IrqAction::Dispatch { dev_id: 4, irq: 11 });
}
