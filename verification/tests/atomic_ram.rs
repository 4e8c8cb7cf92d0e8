use aos_realm::atomic_ram::{
    AtomicGuestRam, AtomicReservation, ATOMIC_RAM_CHUNK_BYTES, RESERVATION_GRANULE_BYTES,
};

#[test]
fn demand_zero_chunks_preserve_bounds_and_little_endian_values() {
    let mut ram = AtomicGuestRam::zeroed(ATOMIC_RAM_CHUNK_BYTES * 2).expect("atomic RAM metadata");
    assert_eq!(ram.read_value(0, 8), Some(0));
    assert_eq!(ram.byte(ATOMIC_RAM_CHUNK_BYTES + 7), Some(0));
    assert_eq!(ram.byte(ram.len), None);
    assert!(ram.write_value(8, 0x1122_3344_5566_7788, 8));
    assert_eq!(ram.read_value(8, 8), Some(0x1122_3344_5566_7788));
    assert!(ram.set_byte(9, 0xcc));
    assert_eq!(ram.read_value(8, 8), Some(0x1122_3344_5566_cc88));
    assert!(ram.write_value(10, 0xaabb, 2));
    assert_eq!(ram.read_value(8, 8), Some(0x1122_3344_aabb_cc88));
    assert!(!ram.write_value(3, 1, 4));
    let len = ram.len;
    assert!(!ram.write_value(len, 1, 1));

    assert!(ram.copy_from_slice(ATOMIC_RAM_CHUNK_BYTES - 3, &[1, 2, 3, 4, 5, 6]));
    assert_eq!(
        ram.copy_to_vec(ATOMIC_RAM_CHUNK_BYTES - 3..ATOMIC_RAM_CHUNK_BYTES + 3),
        Some(vec![1, 2, 3, 4, 5, 6])
    );
    assert!(ram.copy_from_slice(4096, &vec![7; 4096]));
    assert!(ram
        .nonzero_pages(4096)
        .iter()
        .any(|(index, bytes)| *index == 1 && bytes.iter().all(|byte| *byte == 7)));
    ram.fill_zero();
    assert_eq!(ram.read_value(8, 8), Some(0));
}

#[test]
fn reservations_ignore_disjoint_stores_and_reject_overlapping_stores() {
    let mut ram = AtomicGuestRam::zeroed(4096).expect("atomic RAM");
    assert!(ram.write_value(0, 10, 8));
    let (value, reservation) = ram.load_reserved(0, 8).expect("reservation");
    assert_eq!(value, 10);
    assert!(ram.write_value(RESERVATION_GRANULE_BYTES, 99, 8));
    assert!(ram.store_conditional(reservation, 0, 11, 8));
    assert_eq!(ram.read_value(0, 8), Some(11));

    let (_, reservation) = ram.load_reserved(0, 8).expect("second reservation");
    assert!(ram.write_value(8, 12, 8));
    assert!(!ram.store_conditional(reservation, 0, 13, 8));
    assert_eq!(ram.read_value(0, 8), Some(11));
}

#[test]
fn reads_join_two_words_and_two_chunks() {
    let mut ram = AtomicGuestRam::zeroed(ATOMIC_RAM_CHUNK_BYTES * 2).expect("atomic RAM");
    assert!(ram.write_value(0, 0x0807_0605_0403_0201, 8));
    assert!(ram.write_value(8, 0x100f_0e0d_0c0b_0a09, 8));
    assert_eq!(ram.read_value(5, 8), Some(0x0d0c_0b0a_0908_0706));
    assert_eq!(ram.read_value(7, 2), Some(0x0908));
    assert_eq!(ram.read_value(1, 3), Some(0x04_0302));
    assert!(ram.copy_from_slice(ATOMIC_RAM_CHUNK_BYTES - 2, &[0xaa, 0xbb, 0xcc, 0xdd]));
    assert_eq!(
        ram.read_value(ATOMIC_RAM_CHUNK_BYTES - 2, 4),
        Some(0xddcc_bbaa)
    );
    assert_eq!(ram.read_value(0, 0), None);
    assert_eq!(ram.read_value(0, 9), None);
    assert_eq!(ram.read_value(usize::MAX, 8), None);
}

#[test]
fn zeroes_do_not_create_chunks_and_are_not_counted() {
    let mut ram = AtomicGuestRam::zeroed(4096).expect("atomic RAM");
    let (value, reservation) = ram.load_reserved(64, 4).expect("reservation");
    assert_eq!(value, 0);
    assert_eq!(reservation, AtomicReservation { index: 64, bytes: 4, generation: 0 });
    assert!(ram.write_value(64, 0, 8));
    assert!(ram.set_byte(65, 0));
    assert!(ram.store_conditional(reservation, 64, 5, 4));
    assert_eq!(ram.read_value(64, 8), Some(5));
    let (_, later) = ram.load_reserved(64, 4).expect("reservation");
    assert_eq!(later.generation, 2);
    assert!(!ram.store_conditional(later, 68, 1, 4));
    assert!(!ram.store_conditional(later, 64, 1, 2));
}

#[test]
fn updates_give_the_former_value() {
    let mut ram = AtomicGuestRam::zeroed(4096).expect("atomic RAM");
    let former = (0..2_000)
        .map(|_| {
            ram.update_value(0, 8, |value| value.wrapping_add(1))
                .expect("atomic update")
        })
        .collect::<Vec<_>>();
    assert_eq!(former, (0..2_000).collect::<Vec<_>>());
    assert_eq!(ram.read_value(0, 8), Some(2_000));
    assert_eq!(ram.update_value(2, 4, |value| value), None);
    assert_eq!(ram.update_value(4096, 4, |value| value), None);
    assert_eq!(ram.update_value(4, 4, |_| u64::MAX), Some(0));
    assert_eq!(ram.read_value(0, 8), Some(0xffff_ffff_0000_07d0));
}

#[test]
fn copies_keep_bytes_and_counts() {
    let mut ram = AtomicGuestRam::zeroed(8192).expect("atomic RAM");
    assert!(ram.write_value(128, 7, 8));
    let (_, reservation) = ram.load_reserved(128, 8).expect("reservation");
    let mut copy = ram.duplicate();
    assert!(ram.write_value(128, 8, 8));
    assert!(!ram.store_conditional(reservation, 128, 9, 8));
    assert!(copy.store_conditional(reservation, 128, 9, 8));
    assert_eq!(copy.read_value(128, 8), Some(9));
    assert_eq!(ram.read_value(128, 8), Some(8));
    assert!(!copy.copy_from_slice(8190, &[1, 2, 3]));
    assert_eq!(copy.copy_to_vec(8190..8193), None);
}
