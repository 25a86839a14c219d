use std::cell::Cell;

use ndarray::{ArrayD, IxDyn};
use rusty_brain::{BinaryOp, EvalError, Graph, Session};

fn array(shape: &[usize], data: Vec<f32>) -> ArrayD<f32> {
    ArrayD::from_shape_vec(IxDyn(shape), data).unwrap()
}

fn close(x: &ArrayD<f32>, y: &ArrayD<f32>) -> bool {
    x.shape() == y.shape() && (x - y).fold(true, |accum, element| accum && (element.abs() < 0.01))
}

fn apply(op: BinaryOp, a: &ArrayD<f32>, b: &ArrayD<f32>) -> ArrayD<f32> {
    match op {
        BinaryOp::Add => a + b,
        BinaryOp::Sub => a - b,
        BinaryOp::Mul => a * b,
        BinaryOp::Div => a / b,
    }
}

fn apply_int(op: BinaryOp, a: &i64, b: &i64) -> i64 {
    match op {
        BinaryOp::Add => a + b,
        BinaryOp::Sub => a - b,
        BinaryOp::Mul => a * b,
        BinaryOp::Div => a / b,
    }
}

#[test]
fn simple_arithmetic() {
    let mut g = Graph::new();
    let a = g.placeholder(vec![2, 2], Some(String::from("a")));
    let b = g.placeholder(vec![2], Some(String::from("b")));
    let c = g.placeholder(vec![2, 2, 2], Some(String::from("c")));
    let d = g.placeholder(vec![2, 2], Some(String::from("d")));

    let sum = g.add(b, a).unwrap();
    let product = g.mul(sum, a).unwrap();
    let quotient = g.div(c, product).unwrap();
    let difference = g.sub(d, c).unwrap();

    let a_feed = array(&[2, 2], vec![1., 2., 3., 4.]);
    let b_feed = array(&[2], vec![5., 6.]);
    let c_feed: ArrayD<f32> = ArrayD::ones(IxDyn(&[2, 2, 2]));
    let d_feed: ArrayD<f32> = ArrayD::zeros(IxDyn(&[2, 2]));

    let feeds = vec![(a, a_feed), (b, b_feed), (c, c_feed), (d, d_feed)];

    let fetches = vec![sum, product, quotient, difference];
    let expected_results = vec![
        array(&[2, 2], vec![6., 8., 8., 10.]),
        array(&[2, 2], vec![6., 16., 24., 40.]),
        array(
            &[2, 2, 2],
            vec![1. / 6., 1. / 16., 1. / 24., 1. / 40., 1. / 6., 1. / 16., 1. / 24., 1. / 40.],
        ),
        array(&[2, 2, 2], vec![-1., -1., -1., -1., -1., -1., -1., -1.]),
    ];

    let num_fetches = fetches.len();
    let mut session = Session::new();
    let results = session.run(&g, feeds, &fetches, apply).unwrap();

    assert_eq!(num_fetches, results.len());
    for (result, expected) in results.into_iter().zip(expected_results.iter()) {
        assert!(close(result, expected));
    }
}

#[test]
fn sum_and_product_of_fed_placeholders() {
    let mut g = Graph::new();
    let x = g.placeholder(vec![2, 2], Some(String::from("x")));
    let y = g.placeholder(vec![2], Some(String::from("y")));
    let sum = g.add(y, x).unwrap();
    let product = g.mul(sum, x).unwrap();
    let feeds = vec![(x, array(&[2, 2], vec![1., 2., 3., 4.])), (y, array(&[2], vec![5., 6.]))];
    let mut session = Session::new();
    let results = session.run(&g, feeds, &vec![sum, product], apply).unwrap();
    assert!(close(results[0], &array(&[2, 2], vec![6., 8., 8., 10.])));
    assert!(close(results[1], &array(&[2, 2], vec![6., 16., 24., 40.])));
}

#[test]
fn difference_broadcasts_the_smaller_operand() {
    let mut g = Graph::new();
    let c = g.placeholder(vec![2, 2, 2], Some(String::from("c")));
    let d = g.placeholder(vec![2, 2], Some(String::from("d")));
    let difference = g.sub(d, c).unwrap();
    assert_eq!(g.node(difference).shape(), &vec![2, 2, 2]);
    let feeds = vec![(c, ArrayD::ones(IxDyn(&[2, 2, 2]))), (d, ArrayD::zeros(IxDyn(&[2, 2])))];
    let mut session = Session::new();
    let results = session.run(&g, feeds, &vec![difference], apply).unwrap();
    assert!(close(results[0], &ArrayD::from_elem(IxDyn(&[2, 2, 2]), -1.0f32)));
}

#[test]
fn reversed_division_keeps_operand_order() {
    let mut g = Graph::new();
    let v = g.placeholder(vec![2], None);
    let m = g.placeholder(vec![2, 2], None);
    let q = g.div(v, m).unwrap();
    let feeds = vec![(v, array(&[2], vec![8., 6.])), (m, array(&[2, 2], vec![2., 3., 4., 6.]))];
    let mut session = Session::new();
    let results = session.run(&g, feeds, &vec![q], apply).unwrap();
    assert!(close(results[0], &array(&[2, 2], vec![4., 2., 2., 1.])));
}

#[test]
fn repeated_runs_give_identical_results() {
    let mut g = Graph::new();
    let x = g.placeholder(vec![1], None);
    let y = g.placeholder(vec![1], None);
    let s = g.add(x, y).unwrap();
    let t = g.mul(s, y).unwrap();
    let fetches = vec![t, s, t];
    let first: Vec<i64> =
        Session::new().run(&g, vec![(x, 3), (y, 4)], &fetches, apply_int).unwrap().into_iter().copied().collect();
    let second: Vec<i64> =
        Session::new().run(&g, vec![(x, 3), (y, 4)], &fetches, apply_int).unwrap().into_iter().copied().collect();
    assert_eq!(first, vec![28, 7, 28]);
    assert_eq!(first, second);

    let mut session = Session::new();
    let again: Vec<i64> = session.run(&g, vec![(x, 3), (y, 4)], &fetches, apply_int).unwrap().into_iter().copied().collect();
    assert_eq!(again, first);
    let third: Vec<i64> = session.run(&g, vec![(x, 3), (y, 4)], &fetches, apply_int).unwrap().into_iter().copied().collect();
    assert_eq!(third, first);
}

#[test]
fn shared_node_is_evaluated_once() {
    let mut g = Graph::new();
    let x = g.placeholder(vec![1], None);
    let y = g.placeholder(vec![1], None);
    let s = g.add(x, y).unwrap();
    let t = g.mul(s, s).unwrap();
    let u = g.sub(t, s).unwrap();
    let calls = Cell::new(0usize);
    let counting = |op: BinaryOp, a: &i64, b: &i64| -> i64 {
        calls.set(calls.get() + 1);
        apply_int(op, a, b)
    };
    let mut session = Session::new();
    let results = session.run(&g, vec![(x, 1), (y, 2)], &vec![u, t, s], counting).unwrap();
    assert_eq!(results, vec![&6, &9, &3]);
    assert_eq!(calls.get(), 3);
}

#[test]
fn feeding_an_intermediate_node_cuts_the_graph() {
    let mut g = Graph::new();
    let x = g.placeholder(vec![1], None);
    let y = g.placeholder(vec![1], None);
    let s = g.add(x, y).unwrap();
    let t = g.mul(s, s).unwrap();
    let calls = Cell::new(0usize);
    let counting = |op: BinaryOp, a: &i64, b: &i64| -> i64 {
        calls.set(calls.get() + 1);
        apply_int(op, a, b)
    };
    let mut session = Session::new();
    let results = session.run(&g, vec![(s, 5)], &vec![t], counting).unwrap();
    assert_eq!(results, vec![&25]);
    assert_eq!(calls.get(), 1);
}

#[test]
fn fetching_a_fed_node_returns_its_feed() {
    let mut g = Graph::new();
    let x = g.placeholder(vec![1], None);
    let y = g.placeholder(vec![1], None);
    let s = g.add(x, y).unwrap();
    let mut session = Session::new();
    let results = session.run(&g, vec![(s, 11), (s, 12)], &vec![s, s], apply_int).unwrap();
    assert_eq!(results, vec![&12, &12]);
    assert!(session.is_fed(s));
    assert!(!session.is_fed(x));
}

#[test]
fn unfed_placeholder_fails() {
    let mut g = Graph::new();
    let x = g.placeholder(vec![1], None);
    let y = g.placeholder(vec![1], None);
    let s = g.add(x, y).unwrap();
    let mut session = Session::new();
    assert_eq!(session.run(&g, vec![(x, 1)], &vec![s], apply_int), Err(EvalError::UnfedPlaceholderError));
    assert_eq!(session.run(&g, vec![], &vec![x], apply_int), Err(EvalError::UnfedPlaceholderError));
    assert_eq!(session.run(&g, vec![(y, 2)], &vec![y], apply_int), Ok(vec![&2]));
    assert_eq!(session.run(&g, vec![], &vec![], apply_int), Ok(vec![]));
}
