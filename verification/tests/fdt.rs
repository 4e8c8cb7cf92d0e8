use aos_realm::fdt::{
    FDT_LAST_COMPATIBLE_VERSION, FDT_MAGIC, FDT_VERSION, HEADER_BYTES, LinuxFdtConfig,
    RESERVATION_MAP_BYTES, build_linux_fdt,
};

#[test]
fn generated_tree_has_exact_header_offsets_and_linux_contract_strings() {
    let tree = build_linux_fdt(&LinuxFdtConfig {
        dram_base: 0x8000_0000,
        ram_bytes: 64 * 1024 * 1024,
        uart_base: 0x1000_0000,
        uart_bytes: 0x100,
        bootargs: "console=ttyS0 init=/init",
        initrd_start: Some(0x8080_0000),
        initrd_end: Some(0x8090_0000),
    });
    let word = |offset: usize| {
        u32::from_be_bytes(tree[offset..offset + 4].try_into().expect("header word"))
    };
    assert_eq!(word(0), FDT_MAGIC);
    assert_eq!(word(4) as usize, tree.len());
    assert_eq!(word(8), (HEADER_BYTES + RESERVATION_MAP_BYTES) as u32);
    assert_eq!(word(16), HEADER_BYTES as u32);
    assert_eq!(word(20), FDT_VERSION);
    assert_eq!(word(24), FDT_LAST_COMPATIBLE_VERSION);
    assert_eq!(
        &tree[HEADER_BYTES..HEADER_BYTES + RESERVATION_MAP_BYTES],
        &[0; 16]
    );
    for expected in [
        b"aos,aos-rv64-virt-v0\0".as_slice(),
        b"rv64ima_zicsr_zifencei\0".as_slice(),
        b"riscv,sv39\0".as_slice(),
        b"console=ttyS0 init=/init\0".as_slice(),
        b"ns16550a\0".as_slice(),
    ] {
        assert!(
            tree.windows(expected.len())
                .any(|window| window == expected)
        );
    }
}
