use chippy::memory::Memory;

#[test]
fn test_get_font_adress() {
    let memory = Memory::new(&[]);

    let one_adress = memory.get_font_adress(0x1);
    assert_eq!(memory.read_bytes(one_adress, 5), &[0x20, 0x60, 0x20, 0x20, 0x70]);

    let c_adress = memory.get_font_adress(0xC);
    assert_eq!(memory.read_bytes(c_adress, 5), &[0xF0, 0x80, 0x80, 0x80, 0xF0]);
}

#[test]
fn test_len() {
    let memory = Memory::new(&[0x0, 0x0, 0x0]);

    assert_eq!(memory.len(), 515);
}

#[test]
fn test_read() {
    let memory = Memory::new(&[0xFF, 0xEA, 0x12]);

    assert_eq!(memory.read(512), 0xFF);
    assert_eq!(memory.read(513), 0xEA);
    assert_eq!(memory.read(514), 0x12);
}

#[test]
fn test_read_bytes() {
    let memory = Memory::new(&[0xFF, 0xEA, 0x12, 0x11, 0x54]);

    assert_eq!(memory.read_bytes(513, 3), [0xEA, 0x12, 0x11]);
}

#[test]
fn test_read_opcode() {
    let memory = Memory::new(&[0xFF, 0xEA, 0x12, 0x11, 0x54]);

    assert_eq!(memory.read_opcode(512), 0xFFEA);
    assert_eq!(memory.read_opcode(514), 0x1211);
}

#[test]
fn test_write() {
    let mut memory = Memory::new(&[0x14, 0x13, 0x12, 0x11, 0x10]);

    memory.write(512, 0xFE);
    assert_eq!(memory.read(512), 0xFE);
}

#[test]
fn test_reserved_region_is_zeroed() {
    let memory = Memory::new(&[0xAB]);

    for adress in 80..512 {
        assert_eq!(memory.read(adress), 0);
    }
    assert_eq!(memory.read(512), 0xAB);
}
