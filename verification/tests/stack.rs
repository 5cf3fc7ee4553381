use stackvm::stack::{CallFrame, CallStack, Stack};

#[test]
fn test_stack_init() {
    let stack = Stack::new();
    assert!(stack.space.len() == 0);
}

#[test]
fn test_stack_push() {
    let mut stack = Stack::new();
    stack.push(10);
    assert!(stack.space.len() == 1);
    assert!(stack.space[0] == 10);
}

#[test]
fn test_stack_pull() {
    let mut stack = Stack::new();
    stack.space.push(111);
    stack.space.push(222);
    assert!(stack.pop() + stack.pop() == 333);
    assert!(stack.space.len() == 0);
}

#[test]
fn test_stack_peek() {
    let mut stack = Stack::new();
    stack.space.push(111);
    stack.space.push(222);
    assert!(stack.peek() == 222);
    assert!(stack.space.len() == 2);
    assert!(stack.space[1] == 222)
}

#[test]
fn call_frame_locals_round_trip() {
    let mut frame = CallFrame::new(42);
    assert_eq!(frame.ret, 42);
    assert!(!frame.has_local(3));
    frame.set_local(3, 77);
    assert!(frame.has_local(3));
    assert_eq!(frame.get_local(3), 77);
    frame.set_local(3, 78);
    assert_eq!(frame.get_local(3), 78);
}

#[test]
fn call_stack_is_lifo() {
    let mut cs = CallStack::new();
    cs.push(CallFrame::new(1));
    cs.push(CallFrame::new(2));
    assert_eq!(cs.pop().ret, 2);
    assert_eq!(cs.pop().ret, 1);
}
