use intcode::computer::Computer;

#[test]
fn computer_simple_example() {
    let mut c = Computer::new(&[1, 9, 10, 3, 2, 3, 11, 0, 99, 30, 40, 50]);
    assert!(c.step().unwrap());
    assert_eq!(c.sr, vec![1, 9, 10, 70, 2, 3, 11, 0, 99, 30, 40, 50]);
    assert!(c.step().unwrap());
    assert_eq!(c.sr, vec![3500, 9, 10, 70, 2, 3, 11, 0, 99, 30, 40, 50]);
    assert!(!c.step().unwrap());
}

#[test]
fn computer_example1() {
    let mut c = Computer::new(&[1, 0, 0, 0, 99]);
    while c.step().unwrap() {}
    assert_eq!(c.sr, vec![2, 0, 0, 0, 99]);
}

#[test]
fn computer_example2() {
    let mut c = Computer::new(&[2, 3, 0, 3, 99]);
    while c.step().unwrap() {}
    assert_eq!(c.sr, vec![2, 3, 0, 6, 99]);
}

#[test]
fn computer_example3() {
    let mut c = Computer::new(&[2, 4, 4, 5, 99, 0]);
    while c.step().unwrap() {}
    assert_eq!(c.sr, vec![2, 4, 4, 5, 99, 9801]);
}

#[test]
fn computer_example4() {
    let mut c = Computer::new(&[1, 1, 1, 4, 99, 5, 6, 0, 99]);
    while c.step().unwrap() {}
    assert_eq!(c.sr, vec![30, 1, 1, 4, 2, 5, 6, 0, 99]);
}
