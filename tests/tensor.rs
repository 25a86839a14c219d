use rusty_brain::{broadcast, broadcast_shapes, reverse_operands, Graph, Kernel, Tensor};

#[test]
fn debug_trait() {
    let x = Tensor::placeholder(vec![5, 28, 4], None);
    let formatted_x = x.debug_string();
    assert_eq!(String::from("Tensor { shape: [5, 28, 4], name: \"placeholder\" }"), formatted_x);

    let y = Tensor::placeholder(vec![1], Some(String::from("why")));
    let formatted_y = y.debug_string();
    assert_eq!(String::from("Tensor { shape: [1], name: \"why\" }"), formatted_y);
}

#[test]
fn tensor_eq() {
    let mut g = Graph::new();
    let a = g.placeholder(vec![3, 3, 3], Some(String::from("a")));
    let other_a = g.placeholder(vec![3, 3, 3], Some(String::from("a")));
    assert_ne!(&a, &other_a);

    let c = &a;
    assert_eq!(&a, c);
}

#[test]
fn broad_dims() {
    let a = Tensor::placeholder(vec![20, 50, 5], None);
    let b = Tensor::placeholder(vec![20, 50, 5], None);
    assert_eq!(broadcast(&a, &b).unwrap(), vec![20, 50, 5]);

    let c = Tensor::placeholder(vec![1, 5], None);
    assert_eq!(broadcast(&a, &c).unwrap(), vec![20, 50, 5]);

    let d = Tensor::placeholder(vec![80, 20, 1, 5], None);
    assert_eq!(broadcast(&a, &d).unwrap(), vec![80, 20, 50, 5]);

    let scalar = Tensor::placeholder(vec![1], None);
    assert_eq!(broadcast(&a, &scalar).unwrap(), vec![20, 50, 5]);

    let e = Tensor::placeholder(vec![1, 25, 30, 40, 20, 1, 80], None);
    let f = Tensor::placeholder(vec![30, 1, 1, 1, 80], None);
    assert_eq!(broadcast(&e, &f).unwrap(), vec![1, 25, 30, 40, 20, 1, 80]);
}

#[test]
fn bad_broad_dims() {
    let a = Tensor::placeholder(vec![12, 10, 80, 1, 1, 2], None);
    let b = Tensor::placeholder(vec![12, 20, 80, 4, 1, 1], None);
    let err = broadcast(&a, &b).unwrap_err();
    assert_eq!(err.left, vec![12, 10, 80, 1, 1, 2]);
    assert_eq!(err.right, vec![12, 20, 80, 4, 1, 1]);
    assert_eq!((err.left_dim, err.right_dim), (10, 20));
    assert_eq!(
        err.message(),
        "Failed to broadcast Tensors of shapes [12, 10, 80, 1, 1, 2] and [12, 20, 80, 4, 1, 1] since 10 != 20."
    );
}

#[test]
fn broadcast_is_symmetric() {
    let pairs: Vec<(Vec<u64>, Vec<u64>)> = vec![
        (vec![20, 50, 5], vec![1, 5]),
        (vec![80, 20, 1, 5], vec![20, 50, 5]),
        (vec![1, 25, 30, 40, 20, 1, 80], vec![30, 1, 1, 1, 80]),
        (vec![1], vec![7, 1]),
        (vec![], vec![3, 4]),
    ];
    for (l, r) in pairs {
        assert_eq!(broadcast_shapes(&l, &r).unwrap(), broadcast_shapes(&r, &l).unwrap());
    }
}

#[test]
fn broadcast_with_unit_shape_is_identity() {
    let one = vec![1u64];
    for a in [vec![20u64, 50, 5], vec![1], vec![0, 3], vec![7]] {
        assert_eq!(broadcast_shapes(&a, &one).unwrap(), a);
    }
}

#[test]
fn broadcast_edge_cases() {
    assert_eq!(broadcast_shapes(&vec![], &vec![]).unwrap(), Vec::<u64>::new());
    assert_eq!(broadcast_shapes(&vec![0], &vec![1]).unwrap(), vec![0]);
    assert_eq!(broadcast_shapes(&vec![1, 1], &vec![1]).unwrap(), vec![1, 1]);
    assert_eq!(broadcast_shapes(&vec![u64::MAX], &vec![1]).unwrap(), vec![u64::MAX]);
}

#[test]
fn broadcast_fails_on_innermost_mismatch() {
    let err = broadcast_shapes(&vec![3, 2], &vec![4, 5]).unwrap_err();
    assert_eq!((err.left_dim, err.right_dim), (2, 5));
    assert_eq!(err.left, vec![3, 2]);
    assert_eq!(err.right, vec![4, 5]);
    let err = broadcast_shapes(&vec![2, 3, 1], &vec![3, 3, 7]).unwrap_err();
    assert_eq!((err.left_dim, err.right_dim), (2, 3));
    assert!(broadcast_shapes(&vec![2, 3], &vec![3]).is_ok());
}

#[test]
fn binary_nodes_resolve_operand_order() {
    let mut g = Graph::new();
    let m = g.placeholder(vec![2, 2], Some(String::from("m")));
    let v = g.placeholder(vec![2], Some(String::from("v")));
    let forward = g.sub(m, v).unwrap();
    let reversed = g.sub(v, m).unwrap();
    assert_eq!(g.node(forward).preds(), &vec![m, v]);
    assert_eq!(g.node(forward).kernel(), Kernel::Forward(rusty_brain::BinaryOp::Sub));
    assert_eq!(g.node(reversed).preds(), &vec![m, v]);
    assert_eq!(g.node(reversed).kernel(), Kernel::Reversed(rusty_brain::BinaryOp::Sub));
    assert_eq!(g.node(reversed).shape(), &vec![2, 2]);
    assert_eq!(g.node(reversed).name(), "difference");
    assert!(reverse_operands(&vec![2], &vec![2, 2]));
    assert!(!reverse_operands(&vec![2, 2], &vec![2, 2]));
    assert_eq!(g.len(), 4);
}

#[test]
fn binary_node_rejects_incompatible_shapes() {
    let mut g = Graph::new();
    let a = g.placeholder(vec![2, 3], None);
    let b = g.placeholder(vec![4], None);
    let err = g.add(a, b).unwrap_err();
    assert_eq!(err.left, vec![2, 3]);
    assert_eq!(err.right, vec![4]);
    assert_eq!(g.len(), 2);
    let c = g.placeholder(vec![5, 1, 3], None);
    let d = g.mul(a, c).unwrap();
    assert_eq!(g.node(d).shape(), &vec![5, 2, 3]);
    assert_eq!(g.node(d).preds(), &vec![c, a]);
}

#[test]
fn placeholder_gets_default_name() {
    let t = Tensor::placeholder(vec![2], None);
    assert_eq!(t.name(), "placeholder");
    assert!(t.preds().is_empty());
    assert_eq!(t.kernel(), Kernel::Placeholder);
}

#[test]
fn feed_shape_check() {
    let mut g = Graph::new();
    let a = g.placeholder(vec![2, 3], None);
    assert!(g.accepts_feed(a, &vec![2, 3]));
    assert!(!g.accepts_feed(a, &vec![3, 2]));
    assert!(!g.accepts_feed(a, &vec![2, 3, 1]));
}
