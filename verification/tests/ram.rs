use chip8::ram::{Ram, RamError, RAM_SIZE};

#[test]
fn write() {
    let mut ram = Ram::new();

    let result = ram.write(&[0xff, 0xfe], 0);
    assert!(result.is_ok());
}

#[test]
fn read_byte() {
    let mut ram = Ram::new();

    ram.write(&[0xff, 0xfe], 0).unwrap();

    let actual_0 = ram.read(0).unwrap();
    let actual_1 = ram.read(1).unwrap();

    assert_eq!(actual_0, 0xff);
    assert_eq!(actual_1, 0xfe);
}

#[test]
fn read_back_each_byte() {
    let mut ram = Ram::new();
    let data = [1u8, 2, 3, 4, 5];
    ram.write(&data, 100).unwrap();
    for (i, &byte) in data.iter().enumerate() {
        assert_eq!(ram.read(100 + i).unwrap(), byte);
    }
}

#[test]
fn boundary_rejected() {
    let mut ram = Ram::new();
    assert_eq!(ram.read(RAM_SIZE), Err(RamError::OutOfBounds));
    assert_eq!(ram.read(RAM_SIZE + 100), Err(RamError::OutOfBounds));
    assert!(ram.read(RAM_SIZE - 1).is_ok());

    assert_eq!(ram.write(&[7], RAM_SIZE - 1), Err(RamError::OutOfBounds));
    assert_eq!(ram.write(&[7, 7], RAM_SIZE - 2), Err(RamError::OutOfBounds));
    assert!(ram.write(&[7], RAM_SIZE - 2).is_ok());
    assert_eq!(ram.read(RAM_SIZE - 2).unwrap(), 7);

    let mut untouched = Ram::new();
    assert_eq!(untouched.write(&[1, 2, 3], RAM_SIZE - 3), Err(RamError::OutOfBounds));
    assert_eq!(untouched.read(RAM_SIZE - 3).unwrap(), 0);
    assert_eq!(untouched.read(RAM_SIZE - 2).unwrap(), 0);
}
