use calculator::Stack;

#[test]
fn stack_create_stack() {
    let stack: Stack<u8> = Stack::new();
    println!("{:#?}", stack);
}

#[test]
fn create_empty_stack_with_capacity() {
    let stack: Stack<u32> = Stack::with_capacity(5);
    println!("{:#?}", stack);
}

#[test]
fn stack_create_stack_with_capacity() {
    let mut stack: Stack<u8> = Stack::with_capacity(5);
    for i in 0..5 {
        stack.push(i);
    }
    assert_eq!(*stack.peek().unwrap(), 4);
    println!("{:#?}", stack);
}

#[test]
fn push_multi() {
    let mut s = Stack::with_capacity(3);
    s.push(1);
    s.push(2);
    s.push(3);
    println!("{s:#?}");
    assert_eq!(s.peek(), Some(&3));
}

#[test]
fn push_values_past_capacity() {
    let st_cap = 5;
    let mut stack: Stack<u8> = Stack::with_capacity(st_cap);
    println!("Starting cap: {}", st_cap);
    for i in 0..5 {
        stack.push(i);
    }
    assert_eq!(*stack.peek().unwrap(), 4);
    stack.push(5);
    assert_eq!(*stack.peek().unwrap(), 5);
    println!("{:#?}", stack);
}

#[test]
fn stack_push_values() {
    let mut stack: Stack<u8> = Stack::new();
    for i in 0..=7 {
        stack.push(i);
    }
    assert_eq!(*stack.peek().unwrap(), 7);
    println!("{:#?}", stack);
}

#[test]
fn stack_peek_stack() {
    let mut stack: Stack<String> = Stack::new();
    stack.push(String::from("Hello"));
    stack.push(String::from("Everybody"));
    assert_eq!(*stack.peek().unwrap(), "Everybody");
    stack.pop();

    assert_eq!(*stack.peek().unwrap(), "Hello");
    stack.pop();
    assert_eq!(stack.peek(), None);
}

#[test]
fn stack_check_emptyness() {
    let mut stack = Stack::new();
    assert!(stack.is_empty());
    stack.push(2);
    assert!(!stack.is_empty());
    stack.pop();
    assert!(stack.is_empty());
}

#[test]
fn unsafe_stack_create_stack() {
    let stack: Stack<u8> = Stack::new();
    println!("{:#?}", stack);
}

#[test]
fn unsafe_stack_create_stack_with_capacity() {
    let mut stack: Stack<u8> = Stack::with_capacity(5);
    for i in 0..5 {
        stack.push(i);
    }
    assert_eq!(*stack.peek().unwrap(), 4);
    println!("{:#?}", stack);
}

#[test]
fn push_through_capacity() {
    let mut stack: Stack<u8> = Stack::with_capacity(5);
    for i in 0..=7 {
        stack.push(i);
    }
    assert_eq!(*stack.peek().unwrap(), 7);
    println!("{:#?}", stack);
}

#[test]
fn unsafe_stack_peek_stack() {
    let mut stack: Stack<String> = Stack::with_capacity(10);
    stack.push(String::from("Hello"));
    stack.push(String::from("Everybody"));
    assert_eq!(*stack.peek().unwrap(), "Everybody");
    stack.pop();

    assert_eq!(*stack.peek().unwrap(), "Hello");
    stack.pop();
    assert_eq!(stack.peek(), None);
}

#[test]
fn unsafe_stack_check_emptyness() {
    let mut stack = Stack::new();
    assert!(stack.is_empty());
    stack.push(2);
    assert!(!stack.is_empty());
    stack.pop();
    assert!(stack.is_empty());
}

#[test]
fn pops_return_pushes_in_reverse_order() {
    let mut stack: Stack<u32> = Stack::new();
    for i in 0..100u32 {
        stack.push(i);
    }
    assert_eq!(stack.len(), 100);
    for i in (0..100u32).rev() {
        assert_eq!(stack.pop(), Some(i));
    }
    assert_eq!(stack.pop(), None);
    assert!(stack.is_empty());
}

#[test]
fn pop_on_empty_stack_returns_none() {
    let mut stack: Stack<i64> = Stack::with_capacity(2);
    assert_eq!(stack.pop(), None);
    assert_eq!(stack.peek(), None);
    assert_eq!(stack.len(), 0);
}

#[test]
fn stack_with_small_growth_keeps_order() {
    let mut stack: Stack<u8> = Stack::with_growth(1, 2);
    for i in 0..9 {
        stack.push(i);
    }
    for i in (0..9).rev() {
        assert_eq!(stack.pop(), Some(i));
    }
    assert_eq!(stack.pop(), None);
}
