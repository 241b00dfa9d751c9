use membase::interface::Interface;
use membase::module::Module;
use membase::vmt::{VtableMemory, VMT};
use membase::Dispatch;

#[test]
fn capture_stops_at_first_non_positive_slot() {
    let mem = VtableMemory {
        slots: vec![10, 20, 30, 0, 99],
    };
    let vmt = VMT::new(&mem);
    assert_eq!(vmt.len(), 3);
    assert_eq!(vmt.get_original(0), 10);
    assert_eq!(vmt.get_original(1), 20);
    assert_eq!(vmt.get_original(2), 30);
}

#[test]
fn capture_of_empty_or_zero_table() {
    let empty = VtableMemory { slots: vec![] };
    assert_eq!(VMT::new(&empty).len(), 0);
    let zero_first = VtableMemory { slots: vec![0, 5] };
    assert_eq!(VMT::new(&zero_first).len(), 0);
}

#[test]
fn hook_keeps_original_for_every_slot() {
    let mut mem = VtableMemory {
        slots: vec![10, 20, 30],
    };
    let mut vmt = VMT::new(&mem);
    vmt.hook(&mut mem, 1, 777);
    assert_eq!(mem.slots, vec![10, 777, 30]);
    assert_eq!(vmt.get_original(0), 10);
    assert_eq!(vmt.get_original(1), 20);
    assert_eq!(vmt.get_original(2), 30);
}

#[test]
fn reset_restores_the_live_slot() {
    let mut mem = VtableMemory {
        slots: vec![10, 20, 30],
    };
    let mut vmt = VMT::new(&mem);
    vmt.hook(&mut mem, 1, 777);
    vmt.reset(&mut mem, 1);
    assert_eq!(mem.slots, vec![10, 20, 30]);
    // resetting an already-restored slot is a no-op
    vmt.reset(&mut mem, 1);
    assert_eq!(mem.slots, vec![10, 20, 30]);
}

#[test]
fn release_after_hooking_two_slots_restores_capture_state() {
    let mut mem = VtableMemory {
        slots: vec![11, 22, 33, 44, 55, 66, 0, 7],
    };
    let at_capture = mem.slots.clone();
    let mut vmt = VMT::new(&mem);
    assert_eq!(vmt.len(), 6);
    vmt.hook(&mut mem, 2, 0xBEEF);
    vmt.hook(&mut mem, 5, 0xCAFE);
    assert_ne!(mem.slots, at_capture);
    vmt.release(&mut mem);
    assert_eq!(mem.slots, at_capture);
    // releasing again changes nothing
    vmt.release(&mut mem);
    assert_eq!(mem.slots, at_capture);
}

#[test]
fn interface_release_restores_table_then_module_reference() {
    let module = Module::from_extent(0x1000, 0x100).expect("valid extent");
    let mut mem = VtableMemory {
        slots: vec![101, 102, 103, 0],
    };
    let at_capture = mem.slots.clone();
    let mut iface = Interface::from_capture(module, 0xDEAD_BEEF, &mem);
    assert_eq!(iface.interface, 0xDEAD_BEEF);
    assert!(iface.handle.holds_reference());
    iface.vmt.hook(&mut mem, 0, 999);
    iface.vmt.hook(&mut mem, 2, 888);
    iface.release(&mut mem);
    assert_eq!(mem.slots, at_capture);
    assert!(!iface.handle.holds_reference());
}

#[test]
fn dispatch_carries_its_message() {
    let d = Dispatch::Error(String::from("factory returned null"));
    match d {
        Dispatch::Error(msg) => assert_eq!(msg, "factory returned null"),
        Dispatch::Success | Dispatch::Loopback => panic!("wrong variant"),
    }
}
