use membase::module::{Module, ScanResult};

fn module_1000_10ff() -> Module {
    Module::from_extent(0x1000, 0x100).expect("valid extent")
}

fn blank_memory() -> Vec<u8> {
    vec![0xCC; 0x100]
}

#[test]
fn extent_is_inclusive() {
    let m = module_1000_10ff();
    assert_eq!(m.base(), 0x1000);
    assert_eq!(m.end(), 0x10FF);
    assert!(m.holds_reference());
}

#[test]
fn degenerate_extents_are_absent() {
    assert!(Module::from_extent(0x1000, 0).is_none());
    assert!(Module::from_extent(usize::MAX, 2).is_none());
    assert!(Module::from_extent(usize::MAX, 1).is_some());
}

#[test]
fn offset_adds_to_base() {
    let m = module_1000_10ff();
    assert_eq!(m.offset(0x50), 0x1050);
    assert_eq!(m.offset(0), 0x1000);
}

#[test]
fn release_is_idempotent() {
    let mut m = module_1000_10ff();
    m.release();
    assert!(!m.holds_reference());
    m.release();
    assert!(!m.holds_reference());
    assert_eq!(m.base(), 0x1000);
}

#[test]
fn unique_match_yields_its_address() {
    let m = module_1000_10ff();
    let mut mem = blank_memory();
    mem[0x50] = 0x48;
    mem[0x51] = 0x8B;
    mem[0x52] = 0x01;
    let pat = vec![Some(0x48), Some(0x8B), None];
    assert_eq!(m.scan_signature(&mem, &pat), ScanResult::Found(0x1050));
}

#[test]
fn two_matches_yield_ambiguous() {
    let m = module_1000_10ff();
    let mut mem = blank_memory();
    for start in [0x20, 0x80] {
        mem[start] = 0x48;
        mem[start + 1] = 0x8B;
    }
    let pat = vec![Some(0x48), Some(0x8B), None];
    assert_eq!(m.scan_signature(&mem, &pat), ScanResult::Ambiguous);
}

#[test]
fn zero_wildcard_pattern_found_iff_unique() {
    let m = module_1000_10ff();
    let mut mem = blank_memory();
    mem[0x10] = 0xAA;
    mem[0x11] = 0xBB;
    let pat = vec![Some(0xAA), Some(0xBB)];
    assert_eq!(m.scan_signature(&mem, &pat), ScanResult::Found(0x1010));

    mem[0x90] = 0xAA;
    mem[0x91] = 0xBB;
    assert_eq!(m.scan_signature(&mem, &pat), ScanResult::Ambiguous);

    let absent = vec![Some(0xAA), Some(0xBC)];
    assert_eq!(m.scan_signature(&mem, &absent), ScanResult::NotFound);
}

#[test]
fn overlapping_occurrences_count_separately() {
    let m = Module::from_extent(0x2000, 4).expect("valid extent");
    let mem = vec![0x11, 0x11, 0x11, 0x22];
    let pat = vec![Some(0x11), Some(0x11)];
    // matches at both 0x2000 and 0x2001
    assert_eq!(m.scan_signature(&mem, &pat), ScanResult::Ambiguous);
}

#[test]
fn all_wildcard_pattern_shorter_than_extent_is_ambiguous() {
    let m = module_1000_10ff();
    let mem = blank_memory();
    let pat = vec![None; 0xFF];
    assert_eq!(m.scan_signature(&mem, &pat), ScanResult::Ambiguous);
}

#[test]
fn all_wildcard_pattern_of_extent_length_matches_once() {
    let m = module_1000_10ff();
    let mem = blank_memory();
    let pat = vec![None; 0x100];
    assert_eq!(m.scan_signature(&mem, &pat), ScanResult::Found(0x1000));
}

#[test]
fn pattern_longer_than_extent_is_not_found() {
    let m = Module::from_extent(0x1000, 2).expect("valid extent");
    let mem = vec![0x48, 0x8B];
    let pat = vec![Some(0x48), Some(0x8B), Some(0x01)];
    assert_eq!(m.scan_signature(&mem, &pat), ScanResult::NotFound);
}

#[test]
fn pattern_is_never_read_past_the_last_byte() {
    let m = Module::from_extent(0x1000, 4).expect("valid extent");
    let mem = vec![0x00, 0x00, 0x48, 0x8B];
    // the exact bytes sit at the extent's edge; a longer tail cannot match
    let pat = vec![Some(0x48), Some(0x8B)];
    assert_eq!(m.scan_signature(&mem, &pat), ScanResult::Found(0x1002));
    let too_long = vec![Some(0x48), Some(0x8B), None];
    assert_eq!(m.scan_signature(&mem, &too_long), ScanResult::NotFound);
}
