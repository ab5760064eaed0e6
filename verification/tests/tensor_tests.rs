use zk_torch::tensor::{index_at, next_pow, num_elements, offset, pad_to_pow_of_two, resize, Tensor};

fn t(shape: Vec<usize>, data: Vec<u32>) -> Tensor<u32> {
    Tensor { shape, data }
}

#[test]
fn next_pow_rounds_up_to_powers_of_two() {
    assert_eq!(next_pow(0), 1);
    assert_eq!(next_pow(1), 1);
    assert_eq!(next_pow(2), 2);
    assert_eq!(next_pow(3), 4);
    assert_eq!(next_pow(5), 8);
    assert_eq!(next_pow(8), 8);
    assert_eq!(next_pow(1000), 1024);
}

#[test]
fn resize_pads_with_fill() {
    let a = t(vec![2, 3], vec![1, 2, 3, 4, 5, 6]);
    let r = resize(&a, &vec![3, 4], 0);
    assert_eq!(r.shape, vec![3, 4]);
    assert_eq!(r.data, vec![1, 2, 3, 0, 4, 5, 6, 0, 0, 0, 0, 0]);
}

#[test]
fn resize_cuts_down() {
    let a = t(vec![2, 3], vec![1, 2, 3, 4, 5, 6]);
    let r = resize(&a, &vec![1, 2], 0);
    assert_eq!(r.shape, vec![1, 2]);
    assert_eq!(r.data, vec![1, 2]);
}

#[test]
fn resize_can_grow_one_axis_and_cut_another() {
    let a = t(vec![2, 3], vec![1, 2, 3, 4, 5, 6]);
    let r = resize(&a, &vec![3, 2], 9);
    assert_eq!(r.data, vec![1, 2, 4, 5, 9, 9]);
}

#[test]
fn pad_to_pow_of_two_pads_every_axis() {
    let a = t(vec![3, 1], vec![7, 8, 9]);
    let r = pad_to_pow_of_two(&a, 0);
    assert_eq!(r.shape, vec![4, 1]);
    assert_eq!(r.data, vec![7, 8, 9, 0]);
    let b = t(vec![1, 3], vec![7, 8, 9]);
    let r = pad_to_pow_of_two(&b, 0);
    assert_eq!(r.shape, vec![1, 4]);
    assert_eq!(r.data, vec![7, 8, 9, 0]);
}

#[test]
fn cutting_a_padded_tensor_back_gives_it_back() {
    let a = t(vec![3, 3], vec![1, 2, 3, 4, 5, 6, 7, 8, 9]);
    let padded = pad_to_pow_of_two(&a, 0);
    assert_eq!(padded.shape, vec![4, 4]);
    let back = resize(&padded, &a.shape, 0);
    assert_eq!(back.shape, a.shape);
    assert_eq!(back.data, a.data);
}

#[test]
fn offsets_and_indices_are_inverse() {
    let s = vec![2, 3, 4];
    assert_eq!(num_elements(&s), 24);
    assert_eq!(offset(&s, &vec![1, 2, 3]), 23);
    assert_eq!(offset(&s, &vec![1, 0, 2]), 14);
    assert_eq!(index_at(&s, 14), vec![1, 0, 2]);
    for j in 0..24 {
        assert_eq!(offset(&s, &index_at(&s, j)), j);
    }
}
