use chip8::stack::{Stack, StackError, STACK_SIZE};

#[test]
fn push_pop() {
    let mut stack = Stack::new();
    let expected = 0x1000;
    stack.push(expected).unwrap();
    assert_eq!(Ok(expected), stack.pop());
}

#[test]
fn overflow() {
    let mut stack = Stack::new();
    for i in 0..17 {
        let result = stack.push(0xffff);
        if i < STACK_SIZE {
            assert!(result.is_ok());
        } else {
            assert!(result.is_err());
        }
    }
}

#[test]
fn pop_empty() {
    let mut stack = Stack::new();
    assert_eq!(stack.pop(), Err(StackError::Underflow));
}

#[test]
fn lifo_reverse_order() {
    let mut stack = Stack::new();
    for i in 0..16u16 {
        stack.push(0x200 + i).unwrap();
    }
    assert_eq!(stack.push(0xbeef), Err(StackError::Overflow));
    for i in (0..16u16).rev() {
        assert_eq!(stack.pop(), Ok(0x200 + i));
    }
    assert_eq!(stack.pop(), Err(StackError::Underflow));
}
