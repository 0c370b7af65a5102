use cuda_prim::shape::ShapeTracker;

#[test]
fn numel_of_contiguous_shape() {
    let t = ShapeTracker::new(vec![2, 3, 4]).unwrap();
    assert_eq!(t.numel(), 24);
    assert_eq!(t.shape(), vec![2, 3, 4]);
}

#[test]
fn scalar_shape_has_one_element() {
    let t = ShapeTracker::new(vec![]).unwrap();
    assert_eq!(t.numel(), 1);
}

#[test]
fn zero_extent_is_rejected() {
    assert!(ShapeTracker::new(vec![2, 0, 4]).is_none());
}

#[test]
fn broadcast_rank_mismatch_is_rejected() {
    assert!(ShapeTracker::new_broadcast(vec![2, 3], vec![true]).is_none());
}

#[test]
fn real_shape_is_elementwise_max() {
    let a = ShapeTracker::new(vec![2, 1, 4]).unwrap();
    let b = ShapeTracker::new(vec![1, 3, 4]).unwrap();
    let r = a.get_real_shape(&vec![b]);
    assert_eq!(r, vec![2, 3, 4]);
}

#[test]
fn reshape_replaces_dims_in_place() {
    let mut t = ShapeTracker::new_broadcast(vec![2, 3], vec![true, false]).unwrap();
    t.reshape(vec![6]);
    assert_eq!(t.shape(), vec![6]);
    assert_eq!(t.numel(), 6);
}

#[test]
fn contiguous_index_is_identity() {
    let t = ShapeTracker::new(vec![2, 3]).unwrap();
    for idx in 0..6 {
        assert_eq!(t.index_of(idx), idx);
    }
}

#[test]
fn broadcast_dim_strides_zero() {
    // dims [2,3], first dimension broadcast: physical buffer holds 3
    // elements, repeated along the leading axis.
    let t = ShapeTracker::new_broadcast(vec![2, 3], vec![true, false]).unwrap();
    let expected = [0, 1, 2, 0, 1, 2];
    for idx in 0..6 {
        assert_eq!(t.index_of(idx), expected[idx]);
    }
}

#[test]
fn index_expression_renders_as_c_source() {
    let t = ShapeTracker::new(vec![2, 3]).unwrap();
    let e = t.index_fn_node();
    assert_eq!(
        e.to_string_no_range(),
        "((((idx / 3) % 2) * 3) + ((((idx / 1) % 3) * 1) + 0))"
    );
}

#[test]
fn broadcast_index_expression_skips_fake_dims() {
    let t = ShapeTracker::new_broadcast(vec![2, 3], vec![true, false]).unwrap();
    let e = t.index_fn_node();
    assert_eq!(e.to_string_no_range(), "((((idx / 1) % 3) * 1) + 0)");
}
