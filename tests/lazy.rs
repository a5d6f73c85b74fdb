use autograph::lazy::Lazy;

#[test]
fn lazy_computes_once() {
    let mut cell: Lazy<u32> = Lazy::new();
    assert_eq!(*cell.get(|| 7), 7);
    assert_eq!(*cell.get(|| 9), 7);
}
