use inferno::{Layout, ShapeFault, TensorError};

#[test]
fn contiguous_strides_are_row_major() {
    let l = Layout::contiguous(vec![2, 3, 4]).unwrap();
    assert_eq!(l.dims(), &vec![2, 3, 4]);
    assert_eq!(l.stride(), &vec![12, 4, 1]);
    assert_eq!(l.start_offset(), 0);
    assert_eq!(l.rank(), 3);
    assert!(l.is_contiguous());
    assert_eq!(l.elem_count(), Some(24));
    assert_eq!(l.span(), Some(24));
}

#[test]
fn contiguous_of_rank_zero_has_one_element() {
    let l = Layout::contiguous(vec![]).unwrap();
    assert_eq!(l.rank(), 0);
    assert_eq!(l.elem_count(), Some(1));
    assert_eq!(l.span(), Some(1));
    assert!(l.is_contiguous());
    assert_eq!(l.offset_of(&vec![]), Some(0));
}

#[test]
fn contiguous_refuses_shapes_beyond_usize() {
    assert!(Layout::contiguous(vec![usize::MAX, 2]).is_none());
    assert!(Layout::contiguous(vec![0, usize::MAX, 2]).is_none());
    assert!(Layout::contiguous(vec![usize::MAX, 1]).is_some());
}

#[test]
fn new_stores_parts_verbatim() {
    let l = Layout::new(vec![2, 3], vec![1, 2], 5).unwrap();
    assert_eq!(l.dims(), &vec![2, 3]);
    assert_eq!(l.stride(), &vec![1, 2]);
    assert_eq!(l.start_offset(), 5);
    assert!(!l.is_contiguous());
}

#[test]
fn new_rejects_unequal_lengths() {
    assert_eq!(
        Layout::new(vec![2, 3], vec![1], 0),
        Err(TensorError::ShapeMismatch(ShapeFault::Rank { expected: 2, actual: 1 }))
    );
}

#[test]
fn transpose_swaps_dims_and_strides() {
    let l = Layout::new(vec![2, 3, 4], vec![12, 4, 1], 7).unwrap();
    let t = l.transpose(0, 2).unwrap();
    assert_eq!(t.dims(), &vec![4, 3, 2]);
    assert_eq!(t.stride(), &vec![1, 4, 12]);
    assert_eq!(t.start_offset(), 7);
    assert!(!t.is_contiguous());
}

#[test]
fn transpose_round_trip_gives_the_layout_back() {
    let l = Layout::new(vec![2, 3, 4], vec![12, 4, 1], 3).unwrap();
    for a in 0..3 {
        for b in 0..3 {
            let back = l.transpose(a, b).unwrap().transpose(a, b).unwrap();
            assert_eq!(back, l);
        }
    }
}

#[test]
fn transpose_of_one_axis_with_itself_changes_nothing() {
    let l = Layout::contiguous(vec![5, 6]).unwrap();
    assert_eq!(l.transpose(1, 1).unwrap(), l);
}

#[test]
fn transpose_rejects_missing_axes() {
    let l = Layout::contiguous(vec![2, 3]).unwrap();
    assert_eq!(l.transpose(2, 0), Err(TensorError::IndexOutOfRange { axis: 2, rank: 2 }));
    assert_eq!(l.transpose(0, 5), Err(TensorError::IndexOutOfRange { axis: 5, rank: 2 }));
    assert_eq!(l.transpose(7, 9), Err(TensorError::IndexOutOfRange { axis: 7, rank: 2 }));
}

#[test]
fn is_contiguous_compares_every_stride() {
    assert!(Layout::new(vec![2, 3], vec![3, 1], 0).unwrap().is_contiguous());
    assert!(Layout::new(vec![2, 3], vec![3, 1], 9).unwrap().is_contiguous());
    assert!(!Layout::new(vec![2, 3], vec![1, 2], 0).unwrap().is_contiguous());
    // An axis of extent one still has to carry its row-major stride.
    assert!(!Layout::new(vec![1, 3], vec![7, 1], 0).unwrap().is_contiguous());
    assert!(Layout::new(vec![1, 3], vec![3, 1], 0).unwrap().is_contiguous());
    // With an empty axis the strides are those of the extents all the same.
    assert!(Layout::new(vec![2, 0], vec![0, 1], 0).unwrap().is_contiguous());
    assert!(!Layout::new(vec![2, 0], vec![1, 1], 0).unwrap().is_contiguous());
}

#[test]
fn elem_count_is_the_product_of_the_extents() {
    assert_eq!(Layout::new(vec![3, 5, 7], vec![0, 0, 0], 0).unwrap().elem_count(), Some(105));
    assert_eq!(Layout::new(vec![3, 0, 7], vec![1, 1, 1], 0).unwrap().elem_count(), Some(0));
    assert_eq!(Layout::new(vec![usize::MAX, 2], vec![1, 1], 0).unwrap().elem_count(), None);
    assert_eq!(Layout::new(vec![usize::MAX, 2, 0], vec![1, 1, 1], 0).unwrap().elem_count(), Some(0));
    assert!(Layout::new(vec![3, 0, 7], vec![1, 1, 1], 0).unwrap().is_empty());
    assert!(!Layout::new(vec![3, 5, 7], vec![1, 1, 1], 0).unwrap().is_empty());
}

#[test]
fn span_reaches_the_last_element() {
    // 1 + (2-1)*10 + (3-1)*2 = 15
    assert_eq!(Layout::new(vec![2, 3], vec![10, 2], 4).unwrap().span(), Some(15));
    assert_eq!(Layout::new(vec![2, 0], vec![10, 2], 4).unwrap().span(), Some(0));
    assert_eq!(Layout::new(vec![2, 3], vec![0, 0], 0).unwrap().span(), Some(1));
    assert_eq!(Layout::new(vec![3], vec![usize::MAX], 0).unwrap().span(), None);
    assert_eq!(Layout::new(vec![2], vec![usize::MAX], 0).unwrap().span(), None);
    assert_eq!(Layout::new(vec![2], vec![usize::MAX - 1], 0).unwrap().span(), Some(usize::MAX));
}

#[test]
fn fits_compares_offset_and_span_with_the_buffer() {
    let l = Layout::new(vec![2, 3], vec![10, 2], 4).unwrap();
    assert!(l.fits(19));
    assert!(l.fits(100));
    assert!(!l.fits(18));
    assert!(!l.fits(0));
    let empty = Layout::new(vec![0], vec![1], 3).unwrap();
    assert!(empty.fits(3));
    assert!(!empty.fits(2));
    let far = Layout::new(vec![2], vec![1], usize::MAX).unwrap();
    assert!(!far.fits(usize::MAX));
}

#[test]
fn offset_of_applies_the_strides() {
    let l = Layout::new(vec![2, 3, 4], vec![12, 4, 1], 5).unwrap();
    assert_eq!(l.offset_of(&vec![0, 0, 0]), Some(5));
    assert_eq!(l.offset_of(&vec![1, 2, 3]), Some(5 + 12 + 8 + 3));
    assert_eq!(l.offset_of(&vec![2, 0, 0]), None);
    assert_eq!(l.offset_of(&vec![0, 3, 0]), None);
    assert_eq!(l.offset_of(&vec![0, 0]), None);
    let t = l.transpose(0, 2).unwrap();
    assert_eq!(t.offset_of(&vec![3, 2, 1]), l.offset_of(&vec![1, 2, 3]));
    let big = Layout::new(vec![3], vec![usize::MAX / 2 + 1], 0).unwrap();
    assert_eq!(big.offset_of(&vec![1]), Some(usize::MAX / 2 + 1));
    assert_eq!(big.offset_of(&vec![2]), None);
}

#[test]
fn clone_keeps_every_part() {
    let l = Layout::new(vec![2, 3], vec![1, 2], 5).unwrap();
    assert_eq!(l.clone(), l);
}

#[test]
fn row_major_layouts_agree_with_candle() {
    for dims in [vec![2usize, 3, 4], vec![5], vec![7, 1, 3], vec![], vec![4, 0, 2]] {
        let ours = Layout::contiguous(dims.clone()).unwrap();
        let theirs = candle_core::Layout::contiguous(dims.clone());
        assert_eq!(ours.dims().as_slice(), theirs.dims());
        assert_eq!(ours.stride().as_slice(), theirs.stride());
        assert_eq!(ours.start_offset(), theirs.start_offset());
        assert_eq!(ours.elem_count(), Some(theirs.shape().elem_count()));
    }
}

#[test]
fn transposes_agree_with_candle() {
    let dims = vec![2usize, 3, 4];
    let ours = Layout::contiguous(dims.clone()).unwrap();
    let theirs = candle_core::Layout::contiguous(dims);
    for a in 0..3 {
        for b in 0..3 {
            let o = ours.transpose(a, b).unwrap();
            let t = theirs.transpose(a, b).unwrap();
            assert_eq!(o.dims().as_slice(), t.dims());
            assert_eq!(o.stride().as_slice(), t.stride());
            assert_eq!(o.is_contiguous(), t.is_contiguous());
        }
    }
    assert!(ours.transpose(3, 0).is_err());
    assert!(theirs.transpose(3, 0).is_err());
}
