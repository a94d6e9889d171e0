use mips_toolchain::assembler::SplitRInclusive;

#[test]
fn test_vec() {
    let v1 = vec![0, 23, 3, 12, 0, 12, 4, 5, 0, 10, 1];

    assert_eq!(
        v1.split_rinclusive(|v| v != &0),
        vec![
            vec![&0, &23, &3, &12],
            vec![&0, &12, &4, &5],
            vec![&0, &10, &1]
        ]
    );
}

#[test]
fn test_split_rinclusive_without_rejected_elements() {
    // With nothing rejected there is no run to open: everything is
    // dropped and no group comes back.
    let v: Vec<i32> = vec![1, 2, 3];
    let r = v.split_rinclusive(|x| x != &0);
    assert!(r.is_empty());
}
