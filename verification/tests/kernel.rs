use inferno::kernel::{launch_dims, metadata, ucopy, Dim3};
use inferno::{DType, DTypeLike, Layout};

#[test]
fn metadata_is_dims_then_strides() {
    let l = Layout::new(vec![2, 3, 4], vec![12, 1, 3], 9).unwrap();
    assert_eq!(metadata(&l), vec![2, 3, 4, 12, 1, 3]);
    assert_eq!(metadata(&Layout::contiguous(vec![]).unwrap()), Vec::<usize>::new());
}

#[test]
fn launch_covers_every_element_with_blocks_of_1024() {
    let d = launch_dims(5000);
    assert_eq!(d.grid, Dim3 { x: 5, y: 1, z: 1 });
    assert_eq!(d.block, Dim3 { x: 1024, y: 1, z: 1 });
    assert_eq!(d.shared_mem_bytes, 0);
    assert_eq!(launch_dims(0).grid.x, 0);
    assert_eq!(launch_dims(1).grid.x, 1);
    assert_eq!(launch_dims(1024).grid.x, 1);
    assert_eq!(launch_dims(1025).grid.x, 2);
}

#[test]
fn launch_is_capped_at_the_largest_grid() {
    let d = launch_dims(usize::MAX);
    assert_eq!(d.grid.x, 4_194_304);
    assert_eq!(d.block.x, 1024);
    assert_eq!(launch_dims(u32::MAX as usize).grid.x, 4_194_304);
}

#[test]
fn kernel_names_carry_the_type_tag() {
    assert_eq!(DType::F32.name(), "f32");
    assert_eq!(DType::BF16.name(), "bf16");
    assert_eq!(DType::F32.copy_kernel(), "ucopy_f32");
    assert_eq!(DType::F16.copy_kernel(), "ucopy_f16");
    assert_eq!(DType::BF16.copy_kernel(), "ucopy_bf16");
    assert_eq!(DType::U8.copy_kernel(), "ucopy_u8");
    assert_eq!(DType::U16.copy_kernel(), "ucopy_u16");
    assert_eq!(DType::U32.copy_kernel(), "ucopy_u32");
    assert_eq!(DType::U64.copy_kernel(), "ucopy_u64");
    assert_eq!(DType::I8.copy_kernel(), "ucopy_i8");
    assert_eq!(DType::I16.copy_kernel(), "ucopy_i16");
    assert_eq!(DType::I32.copy_kernel(), "ucopy_i32");
    assert_eq!(DType::I64.copy_kernel(), "ucopy_i64");
}

#[test]
fn integer_types_know_their_tag() {
    assert_eq!(<u8 as DTypeLike>::dtype(), DType::U8);
    assert_eq!(<u16 as DTypeLike>::dtype(), DType::U16);
    assert_eq!(<u32 as DTypeLike>::dtype(), DType::U32);
    assert_eq!(<u64 as DTypeLike>::dtype(), DType::U64);
    assert_eq!(<i8 as DTypeLike>::dtype(), DType::I8);
    assert_eq!(<i16 as DTypeLike>::dtype(), DType::I16);
    assert_eq!(<i32 as DTypeLike>::dtype(), DType::I32);
    assert_eq!(<i64 as DTypeLike>::dtype(), DType::I64);
}

#[test]
fn ucopy_of_a_dense_layout_copies() {
    let src: Vec<i32> = (0..6).collect();
    assert_eq!(ucopy(6, 2, &vec![2, 3, 3, 1], &src), Some(vec![0, 1, 2, 3, 4, 5]));
}

#[test]
fn ucopy_reads_through_a_transposed_layout() {
    // A 2x3 row-major matrix read as its 3x2 transpose.
    let src: Vec<i32> = vec![10, 11, 12, 20, 21, 22];
    assert_eq!(ucopy(6, 2, &vec![3, 2, 1, 3], &src), Some(vec![10, 20, 11, 21, 12, 22]));
}

#[test]
fn ucopy_reads_three_axes() {
    let src: Vec<u8> = (0..24).collect();
    // dims (4, 2, 3) over a dense (2, 3, 4) buffer: axes 0 and 2 exchanged
    // would be (4, 3, 2); here axes are rotated: strides (1, 12, 4).
    let out = ucopy(24, 3, &vec![4, 2, 3, 1, 12, 4], &src).unwrap();
    let mut expected = Vec::new();
    for a in 0..4 {
        for b in 0..2 {
            for c in 0..3 {
                expected.push((a + 12 * b + 4 * c) as u8);
            }
        }
    }
    assert_eq!(out, expected);
}

#[test]
fn ucopy_repeats_elements_under_zero_strides() {
    let src = vec![7u16, 8];
    assert_eq!(ucopy(6, 2, &vec![3, 2, 0, 1], &src), Some(vec![7, 8, 7, 8, 7, 8]));
}

#[test]
fn ucopy_of_rank_zero_copies_one_element() {
    assert_eq!(ucopy(1, 0, &vec![], &[42i64]), Some(vec![42]));
    assert_eq!(ucopy(1, 0, &vec![], &[] as &[i64]), None);
}

#[test]
fn ucopy_of_an_empty_shape_writes_nothing() {
    assert_eq!(ucopy(0, 2, &vec![0, 3, 3, 1], &[] as &[i32]), Some(vec![]));
}

#[test]
fn ucopy_refuses_arguments_that_disagree() {
    let src: Vec<i32> = (0..6).collect();
    // metadata too short for the rank
    assert_eq!(ucopy(6, 2, &vec![2, 3, 3], &src), None);
    // count is not the element count
    assert_eq!(ucopy(5, 2, &vec![2, 3, 3, 1], &src), None);
    assert_eq!(ucopy(7, 2, &vec![2, 3, 3, 1], &src), None);
    // the layout reaches beyond the input
    assert_eq!(ucopy(6, 2, &vec![2, 3, 4, 1], &src), None);
    assert_eq!(ucopy(6, 2, &vec![2, 3, 3, 1], &src[..5]), None);
    // element count beyond usize
    assert_eq!(ucopy(6, 2, &vec![usize::MAX, 2, 0, 0], &src), None);
}

#[test]
fn ucopy_after_ucopy_changes_nothing() {
    let src: Vec<i32> = (0..24).collect();
    let once = ucopy(24, 3, &vec![4, 3, 2, 1, 4, 12], &src).unwrap();
    let dense = Layout::contiguous(vec![4, 3, 2]).unwrap();
    let twice = ucopy(24, 3, &metadata(&dense), &once).unwrap();
    assert_eq!(twice, once);
}
