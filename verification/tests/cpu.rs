use chip8::bus::Bus;
use chip8::cpu::Cpu;
use chip8::ENTRY_POINT;

#[test]
fn fetch_instruction() {
    let cpu = Cpu::new();
    let mut bus = Bus::new();
    bus.write_ram(&[0x00, 0xE0], 0x200).unwrap();

    let instruction = cpu.fetch_instruction(&mut bus).unwrap();

    assert_eq!(instruction, 0x00e0);
}

#[test]
fn parse_instruction() {
    let params = Cpu::parse_instruction(0x1234);

    assert_eq!(params.instruction, 0x1234);
    assert_eq!(params.nnn, 0x0234);
    assert_eq!(params.kk, 0x34);
    assert_eq!(params.x, 0x2);
    assert_eq!(params.y, 0x3);
    assert_eq!(params.n, 0x4);
}

#[test]
fn subroutine() {
    let mut cpu = Cpu::new();
    let mut bus = Bus::new();
    bus.write_ram(
        &[
            0x12, 0x04, // 0x0200: jmp 204
            0x00, 0xee, // 0x0202: ret
            0x22, 0x02, // 0x0204: call 202
        ],
        ENTRY_POINT,
    )
    .unwrap();

    assert_eq!(cpu.pc, 0x0200);
    cpu.run(&mut bus).unwrap();
    assert_eq!(cpu.pc, 0x0204);
    cpu.run(&mut bus).unwrap();
    assert_eq!(cpu.pc, 0x0202);
    cpu.run(&mut bus).unwrap();
    assert_eq!(cpu.pc, 0x0206);
}

#[test]
fn skips() {
    let mut cpu = Cpu::new();
    let mut bus = Bus::new();
    bus.write_ram(
        &[
            0x31, 0x01, // 0x0200: se v1 0x01
            0x61, 0x0f, // 0x0202: ld v1 0x0f
            0x31, 0x0f, // 0x0204: se v1 0x0f
            0x00, 0x00, // 0x0206: illegal, should be skipped
            0x65, 0xc1, // 0x0208: ld v5 0xc1
            0x61, 0xc1, // 0x020a: ld v1 0xc1
            0x51, 0x50, // 0x020c: se v1 v5
            0x00, 0x00, // 0x020e: illegal, should be skipped
            0x41, 0x50, // 0x0210: sne v1 0x50
            0x00, 0x00, // 0x0212: illegal, should be skipped
            0x91, 0x50, // 0x0214: sne v1, v2
            0x61, 0xff, // 0x0212: ld v1 0xff
        ],
        ENTRY_POINT,
    )
    .unwrap();

    assert_eq!(cpu.pc, 0x0200);

    cpu.run(&mut bus).unwrap();
    assert_eq!(cpu.pc, 0x0202);

    cpu.run(&mut bus).unwrap();
    assert_eq!(cpu.pc, 0x0204);
    assert_eq!(cpu.vx[1], 0x0f);

    cpu.run(&mut bus).unwrap();
    assert_eq!(cpu.pc, 0x0208);
    assert_eq!(cpu.vx[1], 0x0f);

    cpu.run(&mut bus).unwrap();
    assert_eq!(cpu.pc, 0x020a);
    assert_eq!(cpu.vx[1], 0x0f);
    assert_eq!(cpu.vx[5], 0xc1);

    cpu.run(&mut bus).unwrap();
    assert_eq!(cpu.pc, 0x020c);
    assert_eq!(cpu.vx[1], 0xc1);
    assert_eq!(cpu.vx[5], 0xc1);

    cpu.run(&mut bus).unwrap();
    assert_eq!(cpu.pc, 0x0210);
    assert_eq!(cpu.vx[1], 0xc1);
    assert_eq!(cpu.vx[5], 0xc1);

    cpu.run(&mut bus).unwrap();
    assert_eq!(cpu.pc, 0x0214);
    assert_eq!(cpu.vx[1], 0xc1);
    assert_eq!(cpu.vx[5], 0xc1);

    cpu.run(&mut bus).unwrap();
    cpu.run(&mut bus).unwrap();
    assert_eq!(cpu.pc, 0x0218);
    assert_eq!(cpu.vx[1], 0xff);
    assert_eq!(cpu.vx[5], 0xc1);
}

#[test]
fn inst_0x7xkk() {
    let mut cpu = Cpu::new();
    let mut bus = Bus::new();

    bus.write_ram(
        &[
            0x71, 0x20, // 0x0200: add v1 0x20
            0x71, 0x20, // 0x0202: add v1 0x20
            0x71, 0xE0, // 0x0204: add v1 0xe0
            0x72, 0x01, // 0x0206: add v2 0x01
        ],
        ENTRY_POINT,
    )
    .unwrap();

    cpu.run(&mut bus).unwrap();
    assert_eq!(cpu.vx[1], 0x20);
    cpu.run(&mut bus).unwrap();
    assert_eq!(cpu.vx[1], 0x40);
    cpu.run(&mut bus).unwrap();
    assert_eq!(cpu.vx[1], 0x20);
    cpu.run(&mut bus).unwrap();
    assert_eq!(cpu.vx[2], 0x01);
}

#[test]
fn inst_0x8xyn() {
    let mut cpu = Cpu::new();
    let mut bus = Bus::new();

    bus.write_ram(
        &[
            0x61, 0xF4, // 0x0200: ld v1, 0xf4  (v1 = 0b11110100)
            0x62, 0x82, // 0x0202: ld v2, 0x82  (v2 = 0b10000010)
            0x81, 0x21, // 0x0204: or v1, v2    (v1 = 0b11110110)
            0x81, 0x22, // 0x0206: and v1, v2   (v1 = 0b10000010)
            0x62, 0x11, // 0x0208: ld v2, 0x11  (v2 = 0b00010001)
            0x81, 0x20, // 0x020a: ld v1, v2    (v1 = 0b00010001)
            0x62, 0x85, // 0x020c: ld v2, 0x85  (v2 = 0b10000101)
            0x81, 0x23, // 0x020e: xor v1, v2   (v1 = 0b10010100)
            0x81, 0x24, // 0x0210: add v1, v2   (v1 = 0b00011001)
            0x81, 0x24, // 0x0212: add v1, v2   (v1 = 0b10011110)
            0x81, 0x25, // 0x0214: sub v1, v2   (v1 = 0b00011001)
            0x81, 0x25, // 0x0216: sub v1, v2   (v1 = 0b10010100)
            0x81, 0x06, // 0x0218: shr v1       (v1 = 0b01001010)
            0x82, 0x06, // 0x021a: shr v2       (v2 = 0b01000010)
            0x81, 0x27, // 0x021c: subn v1, v2  (v1 = 0b11111000)
            0x81, 0x0e, // 0x021e: shl v1       (v1 = 0b11110000)
            0x81, 0x06, // 0x0220: shr v1       (v1 = 0b01111000)
            0x81, 0x0e, // 0x0222: shl v1       (v1 = 0b11110000)
        ],
        ENTRY_POINT,
    )
    .unwrap();

    cpu.run(&mut bus).unwrap();
    cpu.run(&mut bus).unwrap();
    cpu.run(&mut bus).unwrap();
    assert_eq!(cpu.vx[1], 0xf6);
    assert_eq!(cpu.vx[2], 0x82);

    cpu.run(&mut bus).unwrap();
    assert_eq!(cpu.vx[1], 0x82);
    assert_eq!(cpu.vx[2], 0x82);

    cpu.run(&mut bus).unwrap();
    assert_eq!(cpu.vx[1], 0x82);
    assert_eq!(cpu.vx[2], 0x11);
    cpu.run(&mut bus).unwrap();
    assert_eq!(cpu.vx[1], 0x11);
    assert_eq!(cpu.vx[2], 0x11);

    cpu.run(&mut bus).unwrap();
    assert_eq!(cpu.vx[2], 0x85);
    cpu.run(&mut bus).unwrap();
    assert_eq!(cpu.vx[1], 0x94);
    assert_eq!(cpu.vx[0xf], 0x0);

    cpu.run(&mut bus).unwrap();
    assert_eq!(cpu.vx[1], 0x19);
    assert_eq!(cpu.vx[2], 0x85);
    assert_eq!(cpu.vx[0xf], 0x1);

    cpu.run(&mut bus).unwrap();
    assert_eq!(cpu.vx[1], 0x9e);
    assert_eq!(cpu.vx[2], 0x85);

    cpu.run(&mut bus).unwrap();
    assert_eq!(cpu.vx[1], 0x19);
    assert_eq!(cpu.vx[2], 0x85);
    assert_eq!(cpu.vx[0xf], 0x1);

    cpu.run(&mut bus).unwrap();
    assert_eq!(cpu.vx[1], 0x94);
    assert_eq!(cpu.vx[2], 0x85);
    assert_eq!(cpu.vx[0xf], 0x0);

    cpu.run(&mut bus).unwrap();
    assert_eq!(cpu.vx[1], 0x4a);
    assert_eq!(cpu.vx[2], 0x85);
    assert_eq!(cpu.vx[0xf], 0x0);

    cpu.run(&mut bus).unwrap();
    assert_eq!(cpu.vx[1], 0x4a);
    assert_eq!(cpu.vx[2], 0x42);
    assert_eq!(cpu.vx[0xf], 0x1);

    cpu.run(&mut bus).unwrap();
    assert_eq!(cpu.vx[1], 0xf8);
    assert_eq!(cpu.vx[2], 0x42);
    assert_eq!(cpu.vx[0xf], 0x0);

    cpu.run(&mut bus).unwrap();
    assert_eq!(cpu.vx[1], 0xf0);
    assert_eq!(cpu.vx[2], 0x42);
    assert_eq!(cpu.vx[0xf], 0x1);

    cpu.run(&mut bus).unwrap();
    assert_eq!(cpu.vx[1], 0x78);
    assert_eq!(cpu.vx[2], 0x42);
    assert_eq!(cpu.vx[0xf], 0x0);

    cpu.run(&mut bus).unwrap();
    assert_eq!(cpu.vx[1], 0xf0);
    assert_eq!(cpu.vx[2], 0x42);
    assert_eq!(cpu.vx[0xf], 0x0);
}

#[test]
fn inst_0xannn() {
    let mut cpu = Cpu::new();
    let mut bus = Bus::new();
    bus.write_ram(
        &[
            0xA4, 0x00, // 0x0200: LD I, 0x400
        ],
        ENTRY_POINT,
    )
    .unwrap();

    assert_eq!(cpu.i, 0x0000);
    assert_eq!(cpu.pc, 0x0200);
    cpu.run(&mut bus).unwrap();
    assert_eq!(cpu.i, 0x0400);
    assert_eq!(cpu.pc, 0x0202);
}

#[test]
fn inst_0xbnnn() {
    let mut cpu = Cpu::new();
    let mut bus = Bus::new();
    bus.write_ram(
        &[
            0x60, 0x10, // 0x0200: LD v0, 0x10
            0xb4, 0x00, // 0x0202: JMP v0, 0x0400 (to 0x0410)
        ],
        ENTRY_POINT,
    )
    .unwrap();

    assert_eq!(cpu.pc, 0x0200);
    cpu.run(&mut bus).unwrap();
    assert_eq!(cpu.vx[0], 0x10);
    assert_eq!(cpu.pc, 0x0202);
    cpu.run(&mut bus).unwrap();
    assert_eq!(cpu.vx[0], 0x10);
    assert_eq!(cpu.pc, 0x0410);
}
