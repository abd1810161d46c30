use inferno::kernel::{ucopy, CopyPlan};
use inferno::tensor::grant_exclusive;
use inferno::{DType, Layout, ShapeFault, Tensor, TensorError, Window};

fn host_copy(src: &Vec<i32>, p: &CopyPlan) -> Result<Vec<i32>, TensorError> {
    let window = &src[p.source.start..p.source.start + p.source.len];
    ucopy(p.count, p.rank, &p.metadata, window).ok_or(TensorError::OperatorFailure { code: -1 })
}

fn host_tensor(device: usize, data: Vec<i32>, shape: Vec<usize>) -> Tensor<Vec<i32>> {
    Tensor::from_vec(device, &data, shape, |d: &[i32]| Ok(d.to_vec())).unwrap()
}

fn read_back(t: &Tensor<Vec<i32>>) -> Vec<i32> {
    t.to_vec(
        DType::I32,
        |p: &CopyPlan| host_copy(t.buffer(), p),
        |b: &Vec<i32>, w: Window| Ok(b[w.start..w.start + w.len].to_vec()),
    )
    .unwrap()
}

#[test]
fn from_raw_accepts_a_matching_buffer() {
    let t = Tensor::from_raw(vec![1, 2, 3, 4, 5, 6], 6, 3, Layout::contiguous(vec![2, 3]).unwrap())
        .unwrap();
    assert_eq!(t.dims(), &vec![2, 3]);
    assert_eq!(t.shape(), &vec![2, 3]);
    assert_eq!(t.stride(), &vec![3, 1]);
    assert_eq!(t.stream(), 3);
    assert_eq!(t.len(), 6);
    assert_eq!(t.layout(), &Layout::contiguous(vec![2, 3]).unwrap());
    assert_eq!(t.buffer(), &vec![1, 2, 3, 4, 5, 6]);
    assert_eq!(t.view(), Window { start: 0, len: 6 });
}

#[test]
fn from_raw_rejects_a_wrong_element_count() {
    let r = Tensor::from_raw(vec![0u8; 5], 5, 0, Layout::contiguous(vec![2, 3]).unwrap());
    assert_eq!(
        r.unwrap_err(),
        TensorError::ShapeMismatch(ShapeFault::ElementCount { expected: 6, actual: 5 })
    );
}

#[test]
fn from_raw_rejects_a_layout_that_leaves_the_buffer() {
    let l = Layout::new(vec![2, 3], vec![3, 1], 1).unwrap();
    let r = Tensor::from_raw(vec![0u8; 6], 6, 0, l);
    assert_eq!(
        r.unwrap_err(),
        TensorError::ShapeMismatch(ShapeFault::OutOfBounds { required: 7, available: 6 })
    );
    let l = Layout::new(vec![2], vec![usize::MAX], 1).unwrap();
    let r = Tensor::from_raw(vec![0u8; 2], 2, 0, l);
    assert_eq!(
        r.unwrap_err(),
        TensorError::ShapeMismatch(ShapeFault::OutOfBounds { required: usize::MAX, available: 2 })
    );
}

#[test]
fn from_raw_rejects_a_shape_beyond_usize() {
    let l = Layout::new(vec![usize::MAX, 2], vec![0, 0], 0).unwrap();
    let r = Tensor::from_raw(vec![0u8; 1], 1, 0, l);
    assert_eq!(r.unwrap_err(), TensorError::ShapeMismatch(ShapeFault::TooLarge));
}

#[test]
fn from_raw_accepts_overlapping_strides_that_fit() {
    let l = Layout::new(vec![2, 3], vec![0, 1], 3).unwrap();
    let t = Tensor::from_raw(vec![0, 0, 0, 7, 8, 9], 6, 0, l).unwrap();
    assert_eq!(t.view(), Window { start: 3, len: 3 });
    assert_eq!(read_back(&t), vec![7, 8, 9, 7, 8, 9]);
}

#[test]
fn from_vec_uploads_and_gives_a_dense_layout() {
    let t = host_tensor(1, (0..24).collect(), vec![2, 3, 4]);
    assert_eq!(t.dims(), &vec![2, 3, 4]);
    assert_eq!(t.stride(), &vec![12, 4, 1]);
    assert_eq!(t.layout().start_offset(), 0);
    assert!(t.layout().is_contiguous());
    assert_eq!(t.stream(), 1);
    assert_eq!(read_back(&t), (0..24).collect::<Vec<i32>>());
}

#[test]
fn from_vec_rejects_a_wrong_length_before_uploading() {
    let mut uploaded = false;
    let r: Result<Tensor<Vec<i32>>, TensorError> =
        Tensor::from_vec(0, &[1, 2, 3, 4, 5], vec![2, 3], |d: &[i32]| {
            uploaded = true;
            Ok(d.to_vec())
        });
    assert_eq!(
        r.unwrap_err(),
        TensorError::ShapeMismatch(ShapeFault::ElementCount { expected: 6, actual: 5 })
    );
    assert!(!uploaded);
}

#[test]
fn from_vec_rejects_a_shape_beyond_usize() {
    let r: Result<Tensor<Vec<i32>>, TensorError> =
        Tensor::from_vec(0, &[], vec![0, usize::MAX, 2], |d: &[i32]| Ok(d.to_vec()));
    assert_eq!(r.unwrap_err(), TensorError::ShapeMismatch(ShapeFault::TooLarge));
}

#[test]
fn from_vec_passes_an_upload_error_on() {
    let r: Result<Tensor<Vec<i32>>, TensorError> = Tensor::from_vec(0, &[1, 2], vec![2], |_: &[i32]| {
        Err(TensorError::AllocationFailure { elements: 2 })
    });
    assert_eq!(r.unwrap_err(), TensorError::AllocationFailure { elements: 2 });
}

#[test]
fn from_zero_allocates_the_element_count() {
    let t: Tensor<Vec<i32>> = Tensor::from_zero(4, vec![2, 5], |n| Ok(vec![0; n])).unwrap();
    assert_eq!(t.dims(), &vec![2, 5]);
    assert_eq!(t.stride(), &vec![5, 1]);
    assert_eq!(t.len(), 10);
    assert_eq!(t.stream(), 4);
    assert_eq!(read_back(&t), vec![0; 10]);
    let r: Result<Tensor<Vec<i32>>, TensorError> =
        Tensor::from_zero(4, vec![usize::MAX, 2], |n| Ok(vec![0; n]));
    assert_eq!(r.unwrap_err(), TensorError::ShapeMismatch(ShapeFault::TooLarge));
    let r: Result<Tensor<Vec<i32>>, TensorError> =
        Tensor::from_zero(4, vec![3], |n| Err(TensorError::AllocationFailure { elements: n }));
    assert_eq!(r.unwrap_err(), TensorError::AllocationFailure { elements: 3 });
}

#[test]
fn transpose_shares_the_buffer_and_permutes_the_layout() {
    let t = host_tensor(0, (0..6).collect(), vec![2, 3]);
    let u = t.transpose(0, 1).unwrap();
    assert_eq!(u.dims(), &vec![3, 2]);
    assert_eq!(u.stride(), &vec![1, 3]);
    assert_eq!(u.stream(), 0);
    assert!(std::ptr::eq(t.buffer(), u.buffer()));
    assert_eq!(read_back(&u), vec![0, 3, 1, 4, 2, 5]);
}

#[test]
fn tensor_transpose_rejects_missing_axes() {
    let t = host_tensor(0, (0..6).collect(), vec![2, 3]);
    assert_eq!(t.transpose(0, 2).unwrap_err(), TensorError::IndexOutOfRange { axis: 2, rank: 2 });
    assert_eq!(t.transpose(4, 2).unwrap_err(), TensorError::IndexOutOfRange { axis: 4, rank: 2 });
}

#[test]
fn transpose_round_trip_restores_layout_and_contents() {
    let t = host_tensor(0, (0..24).collect(), vec![2, 3, 4]);
    for a in 0..3 {
        for b in 0..3 {
            let back = t.transpose(a, b).unwrap().transpose(a, b).unwrap();
            assert_eq!(back.layout(), t.layout());
            assert_eq!(read_back(&back), read_back(&t));
        }
    }
}

#[test]
fn contiguous_shares_a_dense_tensor_without_launching() {
    let t = host_tensor(0, (0..6).collect(), vec![2, 3]);
    let mut launched = false;
    let c = t
        .contiguous(DType::I32, |_: &CopyPlan| {
            launched = true;
            Ok(Vec::new())
        })
        .unwrap();
    assert!(!launched);
    assert_eq!(c.layout(), t.layout());
    assert!(std::ptr::eq(t.buffer(), c.buffer()));
}

#[test]
fn contiguous_launches_the_kernel_for_a_strided_tensor() {
    let t = host_tensor(2, (0..6).collect(), vec![2, 3]).transpose(0, 1).unwrap();
    let mut seen: Option<(String, usize, usize, Vec<usize>, Window, u32, u32)> = None;
    let c = t
        .contiguous(DType::I32, |p: &CopyPlan| {
            seen = Some((
                p.kernel.clone(),
                p.count,
                p.rank,
                p.metadata.clone(),
                p.source,
                p.launch.grid.x,
                p.launch.block.x,
            ));
            host_copy(t.buffer(), p)
        })
        .unwrap();
    assert_eq!(
        seen,
        Some(("ucopy_i32".to_string(), 6, 2, vec![3, 2, 1, 3], Window { start: 0, len: 6 }, 1, 1024))
    );
    assert_eq!(c.dims(), &vec![3, 2]);
    assert_eq!(c.stride(), &vec![2, 1]);
    assert_eq!(c.stream(), 2);
    assert_eq!(c.buffer(), &vec![0, 3, 1, 4, 2, 5]);
    assert!(!std::ptr::eq(t.buffer(), c.buffer()));
}

#[test]
fn contiguous_passes_a_launch_error_on() {
    let t = host_tensor(0, (0..6).collect(), vec![2, 3]).transpose(0, 1).unwrap();
    let r = t.contiguous(DType::I32, |_: &CopyPlan| Err(TensorError::OperatorFailure { code: 700 }));
    assert_eq!(r.unwrap_err(), TensorError::OperatorFailure { code: 700 });
    let r = t.contiguous(DType::I32, |p: &CopyPlan| {
        Err(TensorError::AllocationFailure { elements: p.count })
    });
    assert_eq!(r.unwrap_err(), TensorError::AllocationFailure { elements: 6 });
}

#[test]
fn contiguous_twice_is_contiguous_once() {
    let t = host_tensor(0, (0..24).collect(), vec![2, 3, 4]).transpose(0, 2).unwrap();
    let once = t.contiguous(DType::I32, |p: &CopyPlan| host_copy(t.buffer(), p)).unwrap();
    let twice = once.contiguous(DType::I32, |p: &CopyPlan| host_copy(once.buffer(), p)).unwrap();
    assert!(twice.layout().is_contiguous());
    assert_eq!(twice.layout(), &Layout::contiguous(vec![4, 3, 2]).unwrap());
    assert_eq!(read_back(&twice), read_back(&t));
    assert_eq!(twice.buffer(), once.buffer());
}

#[test]
fn copy_plan_names_the_window_at_the_offset() {
    let l = Layout::new(vec![2, 2], vec![1, 2], 3).unwrap();
    // elements at 3, 5, 4, 6: span 4, so the buffer needs 7 elements, which
    // from_raw refuses for a shape of 4. Zero strides make a layout that an
    // exact buffer can hold at an offset.
    assert!(Tensor::from_raw(vec![0; 4], 4, 0, l).is_err());
    let l = Layout::new(vec![2, 2], vec![0, 1], 2).unwrap();
    let t = Tensor::from_raw(vec![5, 6, 7, 8], 4, 0, l).unwrap();
    let p = t.copy_plan(DType::U8);
    assert_eq!(p.kernel, "ucopy_u8");
    assert_eq!(p.count, 4);
    assert_eq!(p.rank, 2);
    assert_eq!(p.metadata, vec![2, 2, 0, 1]);
    assert_eq!(p.source, Window { start: 2, len: 2 });
    assert_eq!(p.launch.grid.x, 1);
    assert_eq!(host_copy(t.buffer(), &p), Ok(vec![7, 8, 7, 8]));
}

#[test]
fn to_vec_reads_the_logical_elements() {
    let t = host_tensor(0, vec![1, 2, 3, 4, 5, 6], vec![2, 3]);
    assert_eq!(read_back(&t), vec![1, 2, 3, 4, 5, 6]);
    assert_eq!(read_back(&t.transpose(0, 1).unwrap()), vec![1, 4, 2, 5, 3, 6]);
    let r: Result<Vec<i32>, TensorError> = t.to_vec(
        DType::I32,
        |p: &CopyPlan| host_copy(t.buffer(), p),
        |_: &Vec<i32>, _: Window| Err(TensorError::OperatorFailure { code: 1 }),
    );
    assert_eq!(r.unwrap_err(), TensorError::OperatorFailure { code: 1 });
}

#[test]
fn verify_all_same_device_names_the_first_stranger() {
    let a = host_tensor(0, vec![1], vec![1]);
    let b = host_tensor(0, vec![1], vec![1]);
    let c = host_tensor(1, vec![1], vec![1]);
    let d = host_tensor(2, vec![1], vec![1]);
    assert_eq!(a.verify_all_same_device(&[]), Ok(()));
    assert_eq!(a.verify_all_same_device(&[&b]), Ok(()));
    assert_eq!(a.verify_all_same_device(&[&b, &a]), Ok(()));
    assert_eq!(
        a.verify_all_same_device(&[&b, &c, &d]),
        Err(TensorError::DeviceMismatch { expected: 0, actual: 1 })
    );
    assert_eq!(
        c.verify_all_same_device(&[&d, &a]),
        Err(TensorError::DeviceMismatch { expected: 1, actual: 2 })
    );
}

#[test]
fn view_mut_grants_a_sole_owner() {
    let mut t = host_tensor(0, vec![1, 2, 3, 4], vec![2, 2]);
    {
        let (buffer, window) = t.view_mut().unwrap();
        assert_eq!(window, Window { start: 0, len: 4 });
        buffer[3] = 40;
    }
    assert_eq!(read_back(&t), vec![1, 2, 3, 40]);
}

#[test]
fn view_mut_fails_on_either_alias_while_the_other_lives() {
    let mut t = host_tensor(0, vec![1, 2, 3, 4], vec![2, 2]);
    let mut u = t.transpose(0, 1).unwrap();
    assert_eq!(t.view_mut().unwrap_err(), TensorError::AccessViolation);
    assert_eq!(u.view_mut().unwrap_err(), TensorError::AccessViolation);
    assert_eq!(t.view_mut().unwrap_err(), TensorError::AccessViolation);
    drop(u);
    assert!(t.view_mut().is_ok());
    let mut c = t.clone();
    assert_eq!(c.view_mut().unwrap_err(), TensorError::AccessViolation);
    assert_eq!(t.view_mut().unwrap_err(), TensorError::AccessViolation);
    drop(t);
    assert!(c.view_mut().is_ok());
}

#[test]
fn only_a_sole_owner_is_granted_exclusive_access() {
    assert_eq!(grant_exclusive(1), Ok(()));
    assert_eq!(grant_exclusive(2), Err(TensorError::AccessViolation));
    assert_eq!(grant_exclusive(0), Err(TensorError::AccessViolation));
    assert_eq!(grant_exclusive(usize::MAX), Err(TensorError::AccessViolation));
}

#[test]
fn into_slice_gives_the_buffer_to_a_sole_owner() {
    let t = host_tensor(0, vec![1, 2, 3, 4], vec![2, 2]);
    let u = t.clone();
    assert_eq!(u.into_slice().unwrap_err(), TensorError::AccessViolation);
    assert_eq!(t.into_slice(), Ok(vec![1, 2, 3, 4]));
}
